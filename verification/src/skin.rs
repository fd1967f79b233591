//! Loading a classic skin: which members of a .wsz archive are kept, and the
//! CSS variables the windows are sent for the files of the loaded skin.

use vstd::prelude::*;
use std::io::Cursor;
use zip::ZipArchive;
use zip::result::ZipError;
use crate::text::{chars_of, string_from_chars, append_chars, chars_eq, copy_range, unicode_upper,
    to_uppercase, utf8_lossy};
use crate::wsz::{PixView, SpriteMap, decoded_image, decode_image, data_url, make_data_url, pairs_view,
    sheet_entries, sheet_pairs, genex_entries, genex_pairs, entry_keys_unique,
    titlebar_tiles, titlebar_color_entries, plate_entry, genex_color_entries, genex_color_table,
    genex_button_entries, law_genex_button_faces, png_encoding, crop_view};
use crate::pledit::{pledit_entries, parse_pledit, pledit_scan, line_entry};

verus! {

/// `zip::ZipArchive`, an opaque reader of an archive.
#[verifier::external_type_specification]
#[verifier::external_body]
#[verifier::reject_recursive_types(R)]
pub struct ExZipArchive<R>(ZipArchive<R>);

/// `zip::result::ZipError`, carried through opaquely.
#[verifier::external_type_specification]
#[verifier::external_body]
pub struct ExZipError(ZipError);

/// `std::io::Cursor`, the in-memory reader an archive is opened over.
#[verifier::external_type_specification]
#[verifier::external_body]
#[verifier::reject_recursive_types(T)]
pub struct ExCursor<T>(Cursor<T>);

/// `std::io::Error`, carried through opaquely.
#[verifier::external_type_specification]
#[verifier::external_body]
pub struct ExIoError(std::io::Error);

/// The members `ZipArchive::new` finds in `bytes` (`None` when the bytes are
/// no zip archive). A member is `None` when `ZipArchive::by_index` refuses
/// it, else its stored name, whether it is a plain file (`ZipFile::is_file`)
/// and its contents (`None` when reading them fails).
pub uninterp spec fn zip_listing(bytes: Seq<u8>) -> Option<Seq<Option<(Seq<char>, bool, Option<Seq<u8>>)>>>;

/// The members of an opened archive, as `zip_listing` describes them.
pub uninterp spec fn zip_members(a: ZipArchive<Cursor<Vec<u8>>>) -> Seq<Option<(Seq<char>, bool, Option<Seq<u8>>)>>;

/// `ZipArchive::new` over an in-memory copy of `bytes`: it opens exactly when
/// the bytes have a listing, and then holds the listed members.
#[verifier::external_body]
fn open_zip(bytes: &[u8]) -> (r: Result<ZipArchive<Cursor<Vec<u8>>>, ZipError>)
    ensures
        match r {
            Ok(a) => zip_listing(bytes@) == Some(zip_members(a)),
            Err(_) => zip_listing(bytes@) is None,
        },
{
    ZipArchive::new(Cursor::new(bytes.to_vec()))
}

/// `ZipArchive::len`: the number of members.
#[verifier::external_body]
fn zip_len(a: &ZipArchive<Cursor<Vec<u8>>>) -> (n: usize)
    ensures
        n == zip_members(*a).len(),
{
    a.len()
}

/// The contents a read of a member gave: its bytes, or `None` for an error.
pub open spec fn read_view(data: Result<Vec<u8>, std::io::Error>) -> Option<Seq<u8>> {
    match data {
        Ok(d) => Some(d@),
        Err(_) => None,
    }
}

/// `ZipArchive::by_index`, with the member it hands out turned into plain
/// values: its name (`ZipFile::name`), whether it is a plain file
/// (`ZipFile::is_file`) and its contents (`Read::read_to_end`, or the read
/// error). Reading moves the archive's cursor only; its members stay as they
/// were.
#[verifier::external_body]
fn zip_member(a: &mut ZipArchive<Cursor<Vec<u8>>>, i: usize) -> (r: Result<(String, bool, Result<Vec<u8>, std::io::Error>), ZipError>)
    requires
        i < zip_members(*old(a)).len(),
    ensures
        zip_members(*final(a)) == zip_members(*old(a)),
        match r {
            Ok((name, file, data)) => zip_members(*old(a))[i as int] == Some((name@, file, read_view(data))),
            Err(_) => zip_members(*old(a))[i as int] is None,
        },
{
    let mut member = a.by_index(i)?;
    let name = member.name().to_string();
    let file = member.is_file();
    let mut data = Vec::new();
    let read = std::io::Read::read_to_end(&mut member, &mut data).map(|_| data);
    Ok((name, file, read))
}

/// The text a zip error displays (`Display`); nothing is stated of it.
#[verifier::external_body]
fn zip_error_text(e: &ZipError) -> (text: String) {
    format!("{e}")
}

/// The text an I/O error displays (`Display`); nothing is stated of it.
#[verifier::external_body]
fn io_error_text(e: &std::io::Error) -> (text: String) {
    format!("{e}")
}

/// The part of a member path after its last `/` or `\`
/// (`rsplit(['/', '\\']).next()`).
pub open spec fn base_name(s: Seq<char>) -> Seq<char>
    decreases s.len(),
{
    if s.len() == 0 {
        s
    } else if s.last() == '/' || s.last() == '\\' {
        Seq::empty()
    } else {
        base_name(s.drop_last()).push(s.last())
    }
}

/// The name a member is saved under: its base name, upper-cased.
pub open spec fn saved_name(path: Seq<char>) -> Seq<char> {
    unicode_upper(base_name(path))
}

/// The sprite sheets a skin can replace, with the CSS variable each sets.
pub open spec fn sprite_table() -> Seq<(Seq<char>, Seq<char>)> {
    seq![
        ("MAIN.BMP"@, "main"@),
        ("CBUTTONS.BMP"@, "cbuttons"@),
        ("MONOSTER.BMP"@, "monoster"@),
        ("NUMBERS.BMP"@, "numbers"@),
        ("PLAYPAUS.BMP"@, "playpaus"@),
        ("PLEDIT.BMP"@, "pledit"@),
        ("POSBAR.BMP"@, "posbar"@),
        ("SHUFREP.BMP"@, "shufrep"@),
        ("TEXT.BMP"@, "text"@),
        ("TITLEBAR.BMP"@, "titlebar"@),
        ("VOLUME.BMP"@, "volume"@),
        ("BALANCE.BMP"@, "balance"@),
        ("EQMAIN.BMP"@, "eqmain"@),
    ]
}

fn sprite_slot(k: usize) -> (r: (&'static str, &'static str))
    requires
        k < 13,
    ensures
        (r.0@, r.1@) == sprite_table()[k as int],
{
    match k {
        0 => ("MAIN.BMP", "main"),
        1 => ("CBUTTONS.BMP", "cbuttons"),
        2 => ("MONOSTER.BMP", "monoster"),
        3 => ("NUMBERS.BMP", "numbers"),
        4 => ("PLAYPAUS.BMP", "playpaus"),
        5 => ("PLEDIT.BMP", "pledit"),
        6 => ("POSBAR.BMP", "posbar"),
        7 => ("SHUFREP.BMP", "shufrep"),
        8 => ("TEXT.BMP", "text"),
        9 => ("TITLEBAR.BMP", "titlebar"),
        10 => ("VOLUME.BMP", "volume"),
        11 => ("BALANCE.BMP", "balance"),
        _ => ("EQMAIN.BMP", "eqmain"),
    }
}

/// Whether a saved name is one of the files a skin is made of: a sprite
/// sheet, NUMS_EX.BMP, or GEN.BMP / GENEX.BMP / PLEDIT.TXT.
pub open spec fn is_skin_file(n: Seq<char>) -> bool {
    ||| exists|k: int| 0 <= k < 13 && #[trigger] sprite_table()[k].0 == n
    ||| n == "NUMS_EX.BMP"@
    ||| n == "GEN.BMP"@
    ||| n == "GENEX.BMP"@
    ||| n == "PLEDIT.TXT"@
}

/// Whether a member is written out: a plain file saved under a skin file name.
pub open spec fn member_kept(m: (Seq<char>, bool, Option<Seq<u8>>)) -> bool {
    m.1 && is_skin_file(saved_name(m.0))
}

/// Whether extraction stops at a member: `by_index` refuses it, or it is kept
/// and cannot be read.
pub open spec fn member_stops(m: Option<(Seq<char>, bool, Option<Seq<u8>>)>) -> bool {
    match m {
        None => true,
        Some(t) => member_kept(t) && t.2 is None,
    }
}

/// The index of the first member at or after `i` where extraction stops
/// (the member count when none does).
pub open spec fn first_stop(ms: Seq<Option<(Seq<char>, bool, Option<Seq<u8>>)>>, i: int) -> int
    decreases ms.len() - i,
{
    if i < 0 || i >= ms.len() {
        ms.len() as int
    } else if member_stops(ms[i]) {
        i
    } else {
        first_stop(ms, i + 1)
    }
}

/// The files written from the first `n` members, in archive order:
/// `(saved name, contents)`.
pub open spec fn written_files(ms: Seq<Option<(Seq<char>, bool, Option<Seq<u8>>)>>, n: int) -> Seq<(Seq<char>, Option<Seq<u8>>)>
    decreases n,
{
    if n <= 0 {
        Seq::empty()
    } else {
        written_files(ms, n - 1) + match ms[n - 1] {
            Some(t) => if member_kept(t) && t.2 is Some {
                seq![(saved_name(t.0), t.2)]
            } else {
                Seq::empty()
            },
            None => Seq::empty(),
        }
    }
}

/// A file of the loaded skin: its name, and its bytes (`None` when the file is
/// there but could not be read).
pub struct SkinFile {
    pub name: String,
    pub bytes: Option<Vec<u8>>,
}

pub open spec fn bytes_view(b: Option<Vec<u8>>) -> Option<Seq<u8>> {
    match b {
        Some(v) => Some(v@),
        None => None,
    }
}

/// Skin files as `(name, contents)`.
pub open spec fn files_view(v: Seq<SkinFile>) -> Seq<(Seq<char>, Option<Seq<u8>>)> {
    v.map_values(|f: SkinFile| (f.name@, bytes_view(f.bytes)))
}

pub open spec fn has_main(files: Seq<(Seq<char>, Option<Seq<u8>>)>) -> bool {
    exists|k: int| 0 <= k < files.len() && #[trigger] files[k].0 == "MAIN.BMP"@
}

pub open spec fn no_main_message() -> Seq<char> {
    "No MAIN.BMP in the archive — not a Winamp 2.x skin"@
}

/// `prefix`, then some text, then `suffix`.
pub open spec fn wraps(m: Seq<char>, prefix: Seq<char>, suffix: Seq<char>) -> bool {
    exists|t: Seq<char>| #[trigger] (prefix + t) + suffix == m
}

/// How extraction ends: the message of the member it stopped at, else the
/// complaint that there is no MAIN.BMP, else nothing.
pub open spec fn failure_fits(ms: Seq<Option<(Seq<char>, bool, Option<Seq<u8>>)>>, failure: Option<Seq<char>>) -> bool {
    let s = first_stop(ms, 0);
    if s < ms.len() {
        match ms[s] {
            None => failure matches Some(f) && wraps(f, "Bad zip entry ("@, ")"@),
            Some(t) => failure matches Some(f) && wraps(
                f,
                "Could not read "@ + saved_name(t.0) + " ("@,
                ")"@,
            ),
        }
    } else if !has_main(written_files(ms, s)) {
        failure == Some(no_main_message())
    } else {
        failure is None
    }
}

/// What a .wsz archive yields: the files to write, in order, and the error to
/// report after writing them (if any).
pub struct Extraction {
    pub files: Vec<SkinFile>,
    pub failure: Option<String>,
}

pub open spec fn failure_view(f: Option<String>) -> Option<Seq<char>> {
    match f {
        Some(s) => Some(s@),
        None => None,
    }
}

proof fn lemma_base_name(s: Seq<char>, j: int)
    requires
        0 <= j <= s.len(),
        j == 0 || s[j - 1] == '/' || s[j - 1] == '\\',
        forall|k: int| j <= k < s.len() ==> s[k] != '/' && s[k] != '\\',
    ensures
        base_name(s) == s.subrange(j, s.len() as int),
    decreases s.len(),
{
    if s.len() == 0 {
        assert(s.subrange(j, 0) =~= s);
    } else if j == s.len() {
        assert(s.subrange(j, j) =~= Seq::<char>::empty());
    } else {
        let t = s.drop_last();
        assert forall|k: int| j <= k < t.len() implies t[k] != '/' && t[k] != '\\' by {
            assert(t[k] == s[k]);
        }
        if j > 0 {
            assert(t[j - 1] == s[j - 1]);
        }
        lemma_base_name(t, j);
        assert(s.subrange(j, s.len() as int) =~= t.subrange(j, t.len() as int).push(s.last()));
    }
}

/// The saved name of a member path: after the last separator, upper-cased.
fn saved_name_of(path: &String) -> (r: String)
    ensures
        r@ == saved_name(path@),
{
    let chars = chars_of(path.as_str());
    let mut j: usize = chars.len();
    while j > 0 && chars[j - 1] != '/' && chars[j - 1] != '\\'
        invariant
            j <= chars.len(),
            forall|k: int| j <= k < chars@.len() ==> chars@[k] != '/' && chars@[k] != '\\',
        decreases j,
    {
        j -= 1;
    }
    proof {
        lemma_base_name(chars@, j as int);
    }
    let base = string_from_chars(&copy_range(&chars, j, chars.len()));
    to_uppercase(base.as_str())
}

fn is_skin_file_name(n: &Vec<char>) -> (r: bool)
    ensures
        r == is_skin_file(n@),
{
    let mut k: usize = 0;
    while k < 13
        invariant
            k <= 13,
            forall|i: int| 0 <= i < k ==> sprite_table()[i].0 != n@,
        decreases 13 - k,
    {
        let (bmp, _) = sprite_slot(k);
        if chars_eq(n, &chars_of(bmp)) {
            assert(sprite_table()[k as int].0 == n@);
            return true;
        }
        k += 1;
    }
    chars_eq(n, &chars_of("NUMS_EX.BMP")) || chars_eq(n, &chars_of("GEN.BMP")) || chars_eq(
        n,
        &chars_of("GENEX.BMP"),
    ) || chars_eq(n, &chars_of("PLEDIT.TXT"))
}

/// `prefix`, `text` and `suffix` joined.
fn wrap_text(prefix: &Vec<char>, text: &String, suffix: &str) -> (r: String)
    ensures
        r@ == (prefix@ + text@) + suffix@,
{
    let mut v = copy_range(prefix, 0, prefix.len());
    append_chars(&mut v, &chars_of(text.as_str()));
    append_chars(&mut v, &chars_of(suffix));
    assert(prefix@.subrange(0, prefix@.len() as int) =~= prefix@);
    string_from_chars(&v)
}

proof fn lemma_written_step(ms: Seq<Option<(Seq<char>, bool, Option<Seq<u8>>)>>, i: int)
    requires
        0 <= i < ms.len(),
        !member_stops(ms[i]),
    ensures
        first_stop(ms, i) == first_stop(ms, i + 1),
{
}

/// The files of a .wsz archive that make up a skin. `Err` when the bytes are
/// no zip archive; otherwise the members saved under a skin file name
/// (after the last path separator, upper-cased), in archive order, up to the
/// first member the archive refuses or that cannot be read, together with the
/// error to report: that member's, or a missing MAIN.BMP.
pub fn extract_wsz_bytes(bytes: &[u8]) -> (r: Result<Extraction, String>)
    ensures
        match zip_listing(bytes@) {
            None => r matches Err(m) && wraps(m@, "Not a valid .wsz/.zip ("@, ")"@),
            Some(ms) => r matches Ok(x) && files_view(x.files@) == written_files(ms, first_stop(ms, 0))
                && failure_fits(ms, failure_view(x.failure)),
        },
{
    let mut archive = match open_zip(bytes) {
        Ok(a) => a,
        Err(e) => {
            let text = zip_error_text(&e);
            let r = wrap_text(&chars_of("Not a valid .wsz/.zip ("), &text, ")");
            assert(("Not a valid .wsz/.zip ("@ + text@) + ")"@ == r@);
            return Err(r);
        },
    };
    let ghost ms = zip_members(archive);
    let n = zip_len(&archive);
    let mut files: Vec<SkinFile> = Vec::new();
    let mut found_main = false;
    let mut i: usize = 0;
    assert(files_view(files@) =~= written_files(ms, 0));
    while i < n
        invariant
            zip_listing(bytes@) == Some(ms),
            zip_members(archive) == ms,
            n == ms.len(),
            i <= n,
            first_stop(ms, 0) == first_stop(ms, i as int),
            files_view(files@) == written_files(ms, i as int),
            found_main == has_main(files_view(files@)),
        decreases n - i,
    {
        let ghost before = files_view(files@);
        let (raw, is_file, data) = match zip_member(&mut archive, i) {
            Ok(m) => m,
            Err(e) => {
                let text = zip_error_text(&e);
                let m = wrap_text(&chars_of("Bad zip entry ("), &text, ")");
                assert(("Bad zip entry ("@ + text@) + ")"@ == m@);
                return Ok(Extraction { files, failure: Some(m) });
            },
        };
        if is_file {
            let name = saved_name_of(&raw);
            let name_chars = chars_of(name.as_str());
            if is_skin_file_name(&name_chars) {
                match data {
                    Ok(data) => {
                        let is_main = chars_eq(&name_chars, &chars_of("MAIN.BMP"));
                        files.push(SkinFile { name, bytes: Some(data) });
                        proof {
                            let now = files_view(files@);
                            assert(now =~= before.push(now[before.len() as int]));
                            if is_main {
                                assert(now[before.len() as int].0 == "MAIN.BMP"@);
                            }
                            if has_main(before) {
                                let k = choose|k: int| 0 <= k < before.len() && #[trigger] before[k].0 == "MAIN.BMP"@;
                                assert(now[k] == before[k]);
                            }
                            if has_main(now) && !is_main {
                                let k = choose|k: int| 0 <= k < now.len() && #[trigger] now[k].0 == "MAIN.BMP"@;
                                assert(k < before.len());
                                assert(now[k] == before[k]);
                            }
                        }
                        found_main = found_main || is_main;
                    },
                    Err(e) => {
                        let text = io_error_text(&e);
                        let mut prefix = chars_of("Could not read ");
                        append_chars(&mut prefix, &name_chars);
                        append_chars(&mut prefix, &chars_of(" ("));
                        let m = wrap_text(&prefix, &text, ")");
                        assert(("Could not read "@ + name@ + " ("@ + text@) + ")"@ == m@);
                        return Ok(Extraction { files, failure: Some(m) });
                    },
                }
            }
        }
        proof {
            lemma_written_step(ms, i as int);
        }
        assert(files_view(files@) =~= written_files(ms, i + 1));
        i += 1;
    }
    let failure = if found_main {
        None
    } else {
        Some("No MAIN.BMP in the archive — not a Winamp 2.x skin".to_owned())
    };
    Ok(Extraction { files, failure })
}


/// The file of the skin named `name`: the last one so named (a later write of
/// a name replaces the earlier one). `None` when there is none, `Some(None)`
/// when it is there but unreadable.
pub open spec fn find_file(files: Seq<(Seq<char>, Option<Seq<u8>>)>, name: Seq<char>) -> Option<Option<Seq<u8>>>
    decreases files.len(),
{
    if files.len() == 0 {
        None
    } else if files.last().0 == name {
        Some(files.last().1)
    } else {
        find_file(files.drop_last(), name)
    }
}

/// The bytes of the skin file `name`, when it is there and readable.
pub open spec fn readable(files: Seq<(Seq<char>, Option<Seq<u8>>)>, name: Seq<char>) -> Option<Seq<u8>> {
    match find_file(files, name) {
        Some(Some(b)) => Some(b),
        _ => None,
    }
}

/// The file a sprite variable is read from: its own sheet, except that a skin
/// without NUMBERS.BMP uses NUMS_EX.BMP and one without BALANCE.BMP reuses
/// VOLUME.BMP.
pub open spec fn sprite_path(files: Seq<(Seq<char>, Option<Seq<u8>>)>, k: int) -> Seq<char> {
    let (bmp, var) = sprite_table()[k];
    if var == "numbers"@ && find_file(files, bmp) is None {
        "NUMS_EX.BMP"@
    } else if var == "balance"@ && find_file(files, bmp) is None {
        "VOLUME.BMP"@
    } else {
        bmp
    }
}

/// The sprite variables of the first `k` table rows whose sheet is readable,
/// each a BMP data URL.
pub open spec fn sprite_entries(files: Seq<(Seq<char>, Option<Seq<u8>>)>, k: int) -> Seq<(Seq<char>, Seq<char>)>
    decreases k,
{
    if k <= 0 {
        Seq::empty()
    } else {
        sprite_entries(files, k - 1) + match readable(files, sprite_path(files, k - 1)) {
            Some(b) => seq![(sprite_table()[k - 1].1, data_url("data:image/bmp;base64,"@, b))],
            None => Seq::empty(),
        }
    }
}

/// A readable skin file decoded as an image.
pub open spec fn decoded_file(files: Seq<(Seq<char>, Option<Seq<u8>>)>, name: Seq<char>) -> Option<PixView> {
    match readable(files, name) {
        Some(b) => decoded_image(b),
        None => None,
    }
}

/// The sheet the generic titlebar is cut from: GEN.BMP when it decodes, else
/// PLEDIT.BMP (which every skin ships).
pub open spec fn titlebar_sheet(files: Seq<(Seq<char>, Option<Seq<u8>>)>) -> Option<PixView> {
    match decoded_file(files, "GEN.BMP"@) {
        Some(p) => Some(p),
        None => decoded_file(files, "PLEDIT.BMP"@),
    }
}

pub open spec fn sheet_part(files: Seq<(Seq<char>, Option<Seq<u8>>)>) -> Seq<(Seq<char>, Seq<char>)> {
    match titlebar_sheet(files) {
        Some(sheet) => sheet_entries(sheet, decoded_file(files, "GEN.BMP"@) is Some),
        None => Seq::empty(),
    }
}

pub open spec fn genex_part(files: Seq<(Seq<char>, Option<Seq<u8>>)>) -> Seq<(Seq<char>, Seq<char>)> {
    match decoded_file(files, "GENEX.BMP"@) {
        Some(g) => genex_entries(g),
        None => Seq::empty(),
    }
}

pub open spec fn pledit_part(files: Seq<(Seq<char>, Option<Seq<u8>>)>) -> Seq<(Seq<char>, Seq<char>)> {
    match readable(files, "PLEDIT.TXT"@) {
        Some(b) => pledit_entries(utf8_lossy(b)),
        None => Seq::empty(),
    }
}

/// Every `(variable, value)` set for a skin, in the order they are set.
pub open spec fn skin_entries(files: Seq<(Seq<char>, Option<Seq<u8>>)>) -> Seq<(Seq<char>, Seq<char>)> {
    sprite_entries(files, 13) + sheet_part(files) + genex_part(files) + pledit_part(files)
}

/// `base` with the pairs set in order (a later pair for a key wins).
pub open spec fn overlay(base: Map<Seq<char>, Seq<char>>, s: Seq<(Seq<char>, Seq<char>)>) -> Map<Seq<char>, Seq<char>>
    decreases s.len(),
{
    if s.len() == 0 {
        base
    } else {
        overlay(base, s.drop_last()).insert(s.last().0, s.last().1)
    }
}

/// `key` takes the value of `from` unless it is set already.
pub open spec fn derive_from(m: Map<Seq<char>, Seq<char>>, key: Seq<char>, from: Seq<char>) -> Map<Seq<char>, Seq<char>> {
    if m.contains_key(from) && !m.contains_key(key) {
        m.insert(key, m[from])
    } else {
        m
    }
}

/// Without a GENEX.BMP palette (no `genexwndbg`), the media-library colours
/// follow the playlist colours: backgrounds from `plbg`, text from
/// `plnormal`, selection and dividers from `plselbg`.
pub open spec fn derive_palette(m: Map<Seq<char>, Seq<char>>) -> Map<Seq<char>, Seq<char>> {
    if m.contains_key("genexwndbg"@) {
        m
    } else {
        let m1 = derive_from(m, "genexwndbg"@, "plbg"@);
        let m2 = derive_from(m1, "genexitembg"@, "plbg"@);
        let m3 = derive_from(m2, "genexhdrbg"@, "plbg"@);
        let m4 = derive_from(m3, "genexitemfg"@, "plnormal"@);
        let m5 = derive_from(m4, "genexwndtext"@, "plnormal"@);
        let m6 = derive_from(m5, "genexhdrtext"@, "plnormal"@);
        let m7 = derive_from(m6, "genexbtntext"@, "plnormal"@);
        let m8 = derive_from(m7, "genexselbg"@, "plselbg"@);
        derive_from(m8, "genexdivider"@, "plselbg"@)
    }
}

/// The CSS variables a skin made of `files` sets.
pub open spec fn custom_skin(files: Seq<(Seq<char>, Option<Seq<u8>>)>) -> Map<Seq<char>, Seq<char>> {
    derive_palette(overlay(Map::empty(), skin_entries(files)))
}

fn find_file_index(files: &Vec<SkinFile>, name: &Vec<char>) -> (r: Option<usize>)
    ensures
        match r {
            Some(i) => i < files@.len() && find_file(files_view(files@), name@) == Some(
                bytes_view(files@[i as int].bytes),
            ),
            None => find_file(files_view(files@), name@) is None,
        },
{
    let ghost fv = files_view(files@);
    let mut i: usize = files.len();
    assert(fv.take(i as int) =~= fv);
    while i > 0
        invariant
            i <= files@.len(),
            fv == files_view(files@),
            find_file(fv, name@) == find_file(fv.take(i as int), name@),
        decreases i,
    {
        let ghost t = fv.take(i as int);
        if chars_eq(&chars_of(files[i - 1].name.as_str()), name) {
            assert(t.last() == fv[i - 1]);
            return Some(i - 1);
        }
        assert(t.drop_last() =~= fv.take(i - 1));
        i -= 1;
    }
    None
}

fn read_file<'a>(files: &'a Vec<SkinFile>, name: &str) -> (r: Option<&'a Vec<u8>>)
    ensures
        match r {
            Some(b) => readable(files_view(files@), name@) == Some(b@),
            None => readable(files_view(files@), name@) is None,
        },
{
    match find_file_index(files, &chars_of(name)) {
        Some(i) => match &files[i].bytes {
            Some(b) => Some(b),
            None => None,
        },
        None => None,
    }
}

fn decode_file(files: &Vec<SkinFile>, name: &str) -> (r: Option<crate::wsz::Pixmap>)
    ensures
        match r {
            Some(p) => crate::wsz::pixmap_wf(p@) && decoded_file(files_view(files@), name@) == Some(p@),
            None => decoded_file(files_view(files@), name@) is None,
        },
{
    match read_file(files, name) {
        Some(b) => decode_image(b.as_slice()),
        None => None,
    }
}

fn append_pairs(a: &mut Vec<(String, String)>, b: Vec<(String, String)>)
    ensures
        pairs_view(final(a)@) == pairs_view(old(a)@) + pairs_view(b@),
{
    let mut b = b;
    let ghost a0 = a@;
    let ghost b0 = b@;
    a.append(&mut b);
    assert(pairs_view(a@) =~= pairs_view(a0) + pairs_view(b0));
}

fn sprite_pairs(files: &Vec<SkinFile>) -> (r: Vec<(String, String)>)
    ensures
        pairs_view(r@) == sprite_entries(files_view(files@), 13),
{
    let ghost fv = files_view(files@);
    let mut out: Vec<(String, String)> = Vec::new();
    let mut k: usize = 0;
    assert(pairs_view(out@) =~= sprite_entries(fv, 0));
    while k < 13
        invariant
            k <= 13,
            fv == files_view(files@),
            pairs_view(out@) == sprite_entries(fv, k as int),
        decreases 13 - k,
    {
        let (bmp, var) = sprite_slot(k);
        let var_chars = chars_of(var);
        let own = find_file_index(files, &chars_of(bmp));
        let path = if own.is_none() && chars_eq(&var_chars, &chars_of("numbers")) {
            "NUMS_EX.BMP"
        } else if own.is_none() && chars_eq(&var_chars, &chars_of("balance")) {
            "VOLUME.BMP"
        } else {
            bmp
        };
        assert(path@ == sprite_path(fv, k as int));
        let ghost before = pairs_view(out@);
        match read_file(files, path) {
            Some(b) => {
                let url = make_data_url("data:image/bmp;base64,", b.as_slice());
                out.push((var.to_owned(), url));
            },
            None => {},
        }
        assert(pairs_view(out@) =~= sprite_entries(fv, k + 1));
        k += 1;
    }
    out
}

fn derive_entry(m: &mut SpriteMap, key: &str, from: &str)
    requires
        entry_keys_unique(old(m).entries@),
    ensures
        entry_keys_unique(final(m).entries@),
        final(m)@ == derive_from(old(m)@, key@, from@),
{
    match m.get(&from.to_owned()) {
        Some(v) => {
            if m.get(&key.to_owned()).is_none() {
                m.insert(key.to_owned(), v);
            }
        },
        None => {},
    }
}

/// The CSS variables the windows are sent for a loaded skin, from the files
/// of its directory: each sprite sheet as a BMP data URL (NUMS_EX.BMP standing
/// in for a missing NUMBERS.BMP, VOLUME.BMP for a missing BALANCE.BMP), the
/// generic titlebar tiles, colours and title plate cut from GEN.BMP (else
/// PLEDIT.BMP), the GENEX.BMP palette and buttons, the PLEDIT.TXT colours, and
/// a media-library palette derived from those when GENEX.BMP gave none.
pub fn get_custom_skin(files: &Vec<SkinFile>) -> (m: SpriteMap)
    ensures
        m@ == custom_skin(files_view(files@)),
        entry_keys_unique(m.entries@),
{
    let ghost fv = files_view(files@);
    let mut pairs = sprite_pairs(files);
    let gen = decode_file(files, "GEN.BMP");
    let from_gen = gen.is_some();
    let sheet = match gen {
        Some(p) => Some(p),
        None => decode_file(files, "PLEDIT.BMP"),
    };
    match sheet {
        Some(s) => append_pairs(&mut pairs, sheet_pairs(&s, from_gen)),
        None => {},
    }
    assert(pairs_view(pairs@) =~= sprite_entries(fv, 13) + sheet_part(fv));
    match decode_file(files, "GENEX.BMP") {
        Some(g) => append_pairs(&mut pairs, genex_pairs(&g)),
        None => {},
    }
    assert(pairs_view(pairs@) =~= sprite_entries(fv, 13) + sheet_part(fv) + genex_part(fv));
    match read_file(files, "PLEDIT.TXT") {
        Some(b) => append_pairs(&mut pairs, parse_pledit(b.as_slice())),
        None => {},
    }
    assert(pairs_view(pairs@) =~= skin_entries(fv));
    let ghost all = pairs_view(pairs@);
    let mut m = SpriteMap::new();
    let mut i: usize = 0;
    assert(all.take(0) =~= Seq::<(Seq<char>, Seq<char>)>::empty());
    while i < pairs.len()
        invariant
            i <= pairs@.len(),
            all == pairs_view(pairs@),
            entry_keys_unique(m.entries@),
            m@ == overlay(Map::empty(), all.take(i as int)),
        decreases pairs@.len() - i,
    {
        let k = pairs[i].0.clone();
        let v = pairs[i].1.clone();
        m.insert(k, v);
        assert(all.take(i + 1).drop_last() =~= all.take(i as int));
        i += 1;
    }
    assert(all.take(i as int) =~= all);
    let ghost base = m@;
    if m.get(&"genexwndbg".to_owned()).is_none() {
        derive_entry(&mut m, "genexwndbg", "plbg");
        derive_entry(&mut m, "genexitembg", "plbg");
        derive_entry(&mut m, "genexhdrbg", "plbg");
        derive_entry(&mut m, "genexitemfg", "plnormal");
        derive_entry(&mut m, "genexwndtext", "plnormal");
        derive_entry(&mut m, "genexhdrtext", "plnormal");
        derive_entry(&mut m, "genexbtntext", "plnormal");
        derive_entry(&mut m, "genexselbg", "plselbg");
        derive_entry(&mut m, "genexdivider", "plselbg");
    }
    m
}


/// Without a GENEX.BMP palette the media library takes its window colour from
/// the playlist background, so every skin re-colours it.
pub proof fn law_library_follows_playlist(m: Map<Seq<char>, Seq<char>>)
    requires
        !m.contains_key("genexwndbg"@),
        m.contains_key("plbg"@),
    ensures
        derive_palette(m).contains_key("genexwndbg"@),
        derive_palette(m)["genexwndbg"@] == m["plbg"@],
{
}

/// Deriving the library palette only fills gaps: a variable already set keeps
/// its value, and a skin that has a GENEX.BMP palette is left as it is.
pub proof fn law_derive_fills_gaps(m: Map<Seq<char>, Seq<char>>, k: Seq<char>)
    ensures
        m.contains_key(k) ==> derive_palette(m).contains_key(k) && derive_palette(m)[k] == m[k],
        m.contains_key("genexwndbg"@) ==> derive_palette(m) == m,
        derive_palette(m).contains_key(k) ==> m.contains_key(k) || k == "genexwndbg"@ || k
            == "genexitembg"@ || k == "genexhdrbg"@ || k == "genexitemfg"@ || k == "genexwndtext"@
            || k == "genexhdrtext"@ || k == "genexbtntext"@ || k == "genexselbg"@ || k == "genexdivider"@,
{
}

/// Only skin files are extracted: every written file is a readable member
/// saved under one of the names a skin is made of.
pub proof fn law_written_files_are_skin_files(ms: Seq<Option<(Seq<char>, bool, Option<Seq<u8>>)>>, n: int)
    ensures
        forall|k: int| 0 <= k < written_files(ms, n).len() ==> is_skin_file(#[trigger] written_files(ms, n)[k].0)
            && written_files(ms, n)[k].1 is Some,
    decreases n,
{
    if n > 0 {
        law_written_files_are_skin_files(ms, n - 1);
        let prev = written_files(ms, n - 1);
        let w = written_files(ms, n);
        assert forall|k: int| 0 <= k < w.len() implies is_skin_file(#[trigger] w[k].0) && w[k].1 is Some by {
            if k < prev.len() {
                assert(w[k] == prev[k]);
            }
        }
    }
}


/// The names of the files a skin is made of, written out.
pub open spec fn skin_file_named(n: Seq<char>) -> bool {
    n == "MAIN.BMP"@ || n == "CBUTTONS.BMP"@ || n == "MONOSTER.BMP"@ || n == "NUMBERS.BMP"@
        || n == "PLAYPAUS.BMP"@ || n == "PLEDIT.BMP"@ || n == "POSBAR.BMP"@ || n == "SHUFREP.BMP"@
        || n == "TEXT.BMP"@ || n == "TITLEBAR.BMP"@ || n == "VOLUME.BMP"@ || n == "BALANCE.BMP"@
        || n == "EQMAIN.BMP"@ || n == "NUMS_EX.BMP"@ || n == "GEN.BMP"@ || n == "GENEX.BMP"@
        || n == "PLEDIT.TXT"@
}

proof fn lemma_written_contains(ms: Seq<Option<(Seq<char>, bool, Option<Seq<u8>>)>>, n: int, i: int)
    requires
        0 <= i < n <= ms.len(),
        ms[i] matches Some(t) && member_kept(t) && t.2 is Some,
    ensures
        written_files(ms, n).contains((saved_name((ms[i]->0).0), (ms[i]->0).2)),
    decreases n,
{
    let prev = written_files(ms, n - 1);
    let w = written_files(ms, n);
    if i < n - 1 {
        lemma_written_contains(ms, n - 1, i);
        let k = choose|k: int| 0 <= k < prev.len() && prev[k] == (saved_name((ms[i]->0).0), (ms[i]->0).2);
        assert(w[k] == prev[k]);
    } else {
        assert(w[prev.len() as int] == (saved_name((ms[i]->0).0), (ms[i]->0).2));
    }
}

/// Nothing a skin needs is left behind: every plain, readable member before
/// the point where extraction stops whose saved name is one of the skin's
/// files (the sprite sheets, NUMS_EX.BMP, GEN.BMP, GENEX.BMP, PLEDIT.TXT) is
/// written, under that name and with its contents.
pub proof fn law_skin_members_are_written(ms: Seq<Option<(Seq<char>, bool, Option<Seq<u8>>)>>, i: int)
    requires
        0 <= i < first_stop(ms, 0),
        ms[i] matches Some(t) && t.1 && t.2 is Some && skin_file_named(saved_name(t.0)),
    ensures
        written_files(ms, first_stop(ms, 0)).contains((saved_name((ms[i]->0).0), (ms[i]->0).2)),
{
    lemma_first_stop_bound(ms, 0);
    let n = saved_name((ms[i]->0).0);
    let table = sprite_table();
    if n == "MAIN.BMP"@ { assert(table[0].0 == n); }
    if n == "CBUTTONS.BMP"@ { assert(table[1].0 == n); }
    if n == "MONOSTER.BMP"@ { assert(table[2].0 == n); }
    if n == "NUMBERS.BMP"@ { assert(table[3].0 == n); }
    if n == "PLAYPAUS.BMP"@ { assert(table[4].0 == n); }
    if n == "PLEDIT.BMP"@ { assert(table[5].0 == n); }
    if n == "POSBAR.BMP"@ { assert(table[6].0 == n); }
    if n == "SHUFREP.BMP"@ { assert(table[7].0 == n); }
    if n == "TEXT.BMP"@ { assert(table[8].0 == n); }
    if n == "TITLEBAR.BMP"@ { assert(table[9].0 == n); }
    if n == "VOLUME.BMP"@ { assert(table[10].0 == n); }
    if n == "BALANCE.BMP"@ { assert(table[11].0 == n); }
    if n == "EQMAIN.BMP"@ { assert(table[12].0 == n); }
    assert(is_skin_file(n));
    lemma_written_contains(ms, first_stop(ms, 0), i);
}

proof fn lemma_first_stop_bound(ms: Seq<Option<(Seq<char>, bool, Option<Seq<u8>>)>>, i: int)
    requires
        0 <= i,
    ensures
        first_stop(ms, i) <= ms.len(),
    decreases ms.len() - i,
{
    if i < ms.len() && !member_stops(ms[i]) {
        lemma_first_stop_bound(ms, i + 1);
    }
}

/// The sprite variables are distinct.
proof fn lemma_sprite_vars_distinct(j: int, k: int)
    requires
        0 <= j < 13,
        0 <= k < 13,
        j != k,
    ensures
        sprite_table()[j].1 != sprite_table()[k].1,
{
    reveal_strlit("main");
    reveal_strlit("cbuttons");
    reveal_strlit("monoster");
    reveal_strlit("numbers");
    reveal_strlit("playpaus");
    reveal_strlit("pledit");
    reveal_strlit("posbar");
    reveal_strlit("shufrep");
    reveal_strlit("text");
    reveal_strlit("titlebar");
    reveal_strlit("volume");
    reveal_strlit("balance");
    reveal_strlit("eqmain");
    let t = sprite_table();
    assert(t[j].1[0] != t[k].1[0] || t[j].1.len() != t[k].1.len() || t[j].1[1] != t[k].1[1] || t[j].1[2] != t[k].1[2]);
}


/// The variables set besides the sprite sheets: the generic-window titlebar,
/// the media-library palette and buttons, and the playlist colours.
pub open spec fn other_var(v: Seq<char>) -> bool {
    ||| v == "gentl"@ || v == "genfill"@ || v == "gentr"@ || v == "gentitle"@
    ||| v == "titlebarcolor"@ || v == "titletext"@
    ||| v == "genexitembg"@ || v == "genexitemfg"@ || v == "genexwndbg"@ || v == "genexbtntext"@
    ||| v == "genexwndtext"@ || v == "genexdivider"@ || v == "genexselbg"@ || v == "genexhdrbg"@
    ||| v == "genexhdrtext"@ || v == "genexbtn"@ || v == "genexbtnp"@
    ||| v == "plnormal"@ || v == "plcurrent"@ || v == "plbg"@ || v == "plselbg"@
}

proof fn lemma_other_var_not_sprite(v: Seq<char>, k: int)
    requires
        other_var(v),
        0 <= k < 13,
    ensures
        sprite_table()[k].1 != v,
{
    reveal_strlit("main");
    reveal_strlit("cbuttons");
    reveal_strlit("monoster");
    reveal_strlit("numbers");
    reveal_strlit("playpaus");
    reveal_strlit("pledit");
    reveal_strlit("posbar");
    reveal_strlit("shufrep");
    reveal_strlit("text");
    reveal_strlit("titlebar");
    reveal_strlit("volume");
    reveal_strlit("balance");
    reveal_strlit("eqmain");
    reveal_strlit("gentl");
    reveal_strlit("genfill");
    reveal_strlit("gentr");
    reveal_strlit("gentitle");
    reveal_strlit("titlebarcolor");
    reveal_strlit("titletext");
    reveal_strlit("genexitembg");
    reveal_strlit("genexitemfg");
    reveal_strlit("genexwndbg");
    reveal_strlit("genexbtntext");
    reveal_strlit("genexwndtext");
    reveal_strlit("genexdivider");
    reveal_strlit("genexselbg");
    reveal_strlit("genexhdrbg");
    reveal_strlit("genexhdrtext");
    reveal_strlit("genexbtn");
    reveal_strlit("genexbtnp");
    reveal_strlit("plnormal");
    reveal_strlit("plcurrent");
    reveal_strlit("plbg");
    reveal_strlit("plselbg");
    let t = sprite_table()[k].1;
    assert(t[0] != v[0] || t.len() != v.len() || t[1] != v[1] || t[2] != v[2] || t[3] != v[3] || t[5] != v[5]);
}

/// Every key of `s` is one of the other variables.
pub open spec fn keys_other(s: Seq<(Seq<char>, Seq<char>)>) -> bool {
    forall|i: int| 0 <= i < s.len() ==> other_var(#[trigger] s[i].0)
}

proof fn lemma_pledit_keys(text: Seq<char>, i: int, start: int)
    ensures
        keys_other(pledit_scan(text, i, start)),
    decreases text.len() - i,
{
    let r = pledit_scan(text, i, start);
    if i < 0 || i >= text.len() {
    } else if text[i] == '\n' {
        lemma_pledit_keys(text, i + 1, i + 1);
        let head = line_entry(crate::pledit::strip_cr(text.subrange(start, i)));
        let tail = pledit_scan(text, i + 1, i + 1);
        assert forall|k: int| 0 <= k < r.len() implies other_var(#[trigger] r[k].0) by {
            if k < head.len() {
                assert(r[k] == head[k]);
            } else {
                assert(r[k] == tail[k - head.len()]);
            }
        }
    } else {
        lemma_pledit_keys(text, i + 1, start);
    }
}

proof fn lemma_genex_color_keys(g: PixView, n: int)
    requires
        n <= 9,
    ensures
        keys_other(genex_color_entries(g, n)),
    decreases n,
{
    if n > 0 {
        lemma_genex_color_keys(g, n - 1);
        let prev = genex_color_entries(g, n - 1);
        let r = genex_color_entries(g, n);
        assert forall|k: int| 0 <= k < r.len() implies other_var(#[trigger] r[k].0) by {
            if k < prev.len() {
                assert(r[k] == prev[k]);
            } else {
                assert(r[k].0 == genex_color_table()[n - 1].0);
            }
        }
    }
}

proof fn lemma_rest_keys(files: Seq<(Seq<char>, Option<Seq<u8>>)>)
    ensures
        keys_other(sheet_part(files) + genex_part(files) + pledit_part(files)),
{
    let a = sheet_part(files);
    let b = genex_part(files);
    let c = pledit_part(files);
    match titlebar_sheet(files) {
        Some(sheet) => {
            let from_gen = decoded_file(files, "GEN.BMP"@) is Some;
            let t = titlebar_tiles(sheet, from_gen);
            let col = titlebar_color_entries(sheet, from_gen);
            let p = plate_entry(sheet, from_gen);
            assert(keys_other(t));
            assert(keys_other(col));
            assert(keys_other(p));
            assert forall|k: int| 0 <= k < a.len() implies other_var(#[trigger] a[k].0) by {
                if k < t.len() {
                    assert(a[k] == t[k]);
                } else if k < t.len() + col.len() {
                    assert(a[k] == col[k - t.len()]);
                } else {
                    assert(a[k] == p[k - t.len() - col.len()]);
                }
            }
        },
        None => {},
    }
    match decoded_file(files, "GENEX.BMP"@) {
        Some(g) => {
            lemma_genex_color_keys(g, 9);
            let cs = genex_color_entries(g, 9);
            let bs = genex_button_entries(g);
            assert(keys_other(bs));
            assert forall|k: int| 0 <= k < b.len() implies other_var(#[trigger] b[k].0) by {
                if k < cs.len() {
                    assert(b[k] == cs[k]);
                } else {
                    assert(b[k] == bs[k - cs.len()]);
                }
            }
        },
        None => {},
    }
    match readable(files, "PLEDIT.TXT"@) {
        Some(bytes) => {
            lemma_pledit_keys(utf8_lossy(bytes), 0, 0);
        },
        None => {},
    }
    let all = a + b + c;
    assert forall|k: int| 0 <= k < all.len() implies other_var(#[trigger] all[k].0) by {
        if k < a.len() {
            assert(all[k] == a[k]);
        } else if k < a.len() + b.len() {
            assert(all[k] == b[k - a.len()]);
        } else {
            assert(all[k] == c[k - a.len() - b.len()]);
        }
    }
}

proof fn lemma_overlay_concat(base: Map<Seq<char>, Seq<char>>, a: Seq<(Seq<char>, Seq<char>)>, b: Seq<(Seq<char>, Seq<char>)>)
    ensures
        overlay(base, a + b) == overlay(overlay(base, a), b),
    decreases b.len(),
{
    if b.len() == 0 {
        assert(a + b =~= a);
    } else {
        assert((a + b).drop_last() =~= a + b.drop_last());
        lemma_overlay_concat(base, a, b.drop_last());
    }
}

proof fn lemma_overlay_untouched(base: Map<Seq<char>, Seq<char>>, s: Seq<(Seq<char>, Seq<char>)>, v: Seq<char>)
    requires
        forall|i: int| 0 <= i < s.len() ==> #[trigger] s[i].0 != v,
    ensures
        overlay(base, s).contains_key(v) == base.contains_key(v),
        base.contains_key(v) ==> overlay(base, s)[v] == base[v],
    decreases s.len(),
{
    if s.len() > 0 {
        let t = s.drop_last();
        assert forall|i: int| 0 <= i < t.len() implies #[trigger] t[i].0 != v by {
            assert(t[i] == s[i]);
        }
        lemma_overlay_untouched(base, t, v);
        assert(s.last().0 != v);
    }
}

/// In the sprite entries of the first `n` rows, row `k`'s variable holds its
/// sheet's data URL when the sheet is readable, and is unset otherwise.
proof fn lemma_sprite_value(files: Seq<(Seq<char>, Option<Seq<u8>>)>, n: int, k: int)
    requires
        0 <= k < n <= 13,
    ensures
        ({
            let m = overlay(Map::empty(), sprite_entries(files, n));
            let v = sprite_table()[k].1;
            match readable(files, sprite_path(files, k)) {
                Some(b) => m.contains_key(v) && m[v] == data_url("data:image/bmp;base64,"@, b),
                None => !m.contains_key(v),
            }
        }),
    decreases n,
{
    let v = sprite_table()[k].1;
    let prev = sprite_entries(files, n - 1);
    let last = match readable(files, sprite_path(files, n - 1)) {
        Some(b) => seq![(sprite_table()[n - 1].1, data_url("data:image/bmp;base64,"@, b))],
        None => Seq::empty(),
    };
    lemma_overlay_concat(Map::empty(), prev, last);
    if k < n - 1 {
        lemma_sprite_value(files, n - 1, k);
        lemma_sprite_vars_distinct(n - 1, k);
        lemma_overlay_untouched(overlay(Map::empty(), prev), last, v);
    } else {
        assert forall|i: int| 0 <= i < prev.len() implies #[trigger] prev[i].0 != v by {
            lemma_sprite_keys(files, n - 1, i);
            let j = choose|j: int| 0 <= j < n - 1 && prev[i].0 == #[trigger] sprite_table()[j].1;
            lemma_sprite_vars_distinct(j, k);
        }
        lemma_overlay_untouched(Map::empty(), prev, v);
    }
}

/// The keys of the sprite entries of the first `n` rows are those rows'
/// variables.
proof fn lemma_sprite_keys(files: Seq<(Seq<char>, Option<Seq<u8>>)>, n: int, i: int)
    requires
        0 <= n <= 13,
        0 <= i < sprite_entries(files, n).len(),
    ensures
        exists|j: int| 0 <= j < n && sprite_entries(files, n)[i].0 == #[trigger] sprite_table()[j].1,
    decreases n,
{
    let prev = sprite_entries(files, n - 1);
    if i < prev.len() {
        lemma_sprite_keys(files, n - 1, i);
        assert(sprite_entries(files, n)[i] == prev[i]);
        let j = choose|j: int| 0 <= j < n - 1 && prev[i].0 == #[trigger] sprite_table()[j].1;
        assert(sprite_entries(files, n)[i].0 == sprite_table()[j].1);
    } else {
        assert(sprite_entries(files, n)[i].0 == sprite_table()[n - 1].1);
    }
}

/// Every sprite sheet a skin ships (its own sheet, or NUMS_EX.BMP / VOLUME.BMP
/// standing in) is served as that variable's BMP data URL; a sheet the skin
/// does not ship leaves its variable unset, so the base art stays.
pub proof fn law_sprite_sheets_served(files: Seq<(Seq<char>, Option<Seq<u8>>)>, k: int)
    requires
        0 <= k < 13,
    ensures
        ({
            let m = custom_skin(files);
            let v = sprite_table()[k].1;
            match readable(files, sprite_path(files, k)) {
                Some(b) => m.contains_key(v) && m[v] == data_url("data:image/bmp;base64,"@, b),
                None => !m.contains_key(v),
            }
        }),
{
    let v = sprite_table()[k].1;
    let sprites = sprite_entries(files, 13);
    let rest = sheet_part(files) + genex_part(files) + pledit_part(files);
    assert(skin_entries(files) =~= sprites + rest);
    lemma_overlay_concat(Map::empty(), sprites, rest);
    lemma_rest_keys(files);
    assert forall|i: int| 0 <= i < rest.len() implies #[trigger] rest[i].0 != v by {
        lemma_other_var_not_sprite(rest[i].0, k);
    }
    lemma_sprite_value(files, 13, k);
    let base = overlay(Map::empty(), sprites);
    lemma_overlay_untouched(base, rest, v);
    let m0 = overlay(Map::empty(), skin_entries(files));
    law_derive_fills_gaps(m0, v);
    if !m0.contains_key(v) && derive_palette(m0).contains_key(v) {
        lemma_other_var_not_sprite("genexwndbg"@, k);
        lemma_other_var_not_sprite("genexitembg"@, k);
        lemma_other_var_not_sprite("genexhdrbg"@, k);
        lemma_other_var_not_sprite("genexitemfg"@, k);
        lemma_other_var_not_sprite("genexwndtext"@, k);
        lemma_other_var_not_sprite("genexhdrtext"@, k);
        lemma_other_var_not_sprite("genexbtntext"@, k);
        lemma_other_var_not_sprite("genexselbg"@, k);
        lemma_other_var_not_sprite("genexdivider"@, k);
    }
}


proof fn lemma_find_named(files: Seq<(Seq<char>, Option<Seq<u8>>)>, name: Seq<char>, i: int)
    requires
        0 <= i < files.len(),
        files[i].0 == name,
        forall|k: int| 0 <= k < files.len() ==> (#[trigger] files[k]).1 is Some,
    ensures
        readable(files, name) is Some,
    decreases files.len(),
{
    if files.last().0 != name {
        let t = files.drop_last();
        assert(i < t.len());
        assert(t[i] == files[i]);
        assert forall|k: int| 0 <= k < t.len() implies (#[trigger] t[k]).1 is Some by {
            assert(t[k] == files[k]);
        }
        lemma_find_named(t, name, i);
    } else {
        assert(files[files.len() - 1].1 is Some);
    }
}

/// A skin extracted in full (no member refused or unreadable, MAIN.BMP
/// present) always has main-window art: once its files are written, the
/// skin built from them serves MAIN.BMP as the `main` variable.
pub proof fn law_extracted_skin_has_main(ms: Seq<Option<(Seq<char>, bool, Option<Seq<u8>>)>>)
    requires
        failure_fits(ms, None),
    ensures
        ({
            let files = written_files(ms, first_stop(ms, 0));
            &&& readable(files, "MAIN.BMP"@) is Some
            &&& custom_skin(files).contains_key("main"@)
            &&& custom_skin(files)["main"@] == data_url("data:image/bmp;base64,"@, readable(files, "MAIN.BMP"@)->0)
        }),
{
    let n = first_stop(ms, 0);
    let files = written_files(ms, n);
    law_written_files_are_skin_files(ms, n);
    assert forall|i: int| 0 <= i < files.len() implies (#[trigger] files[i]).1 is Some by {
        assert(is_skin_file(files[i].0));
    }
    let k = choose|k: int| 0 <= k < files.len() && #[trigger] files[k].0 == "MAIN.BMP"@;
    lemma_find_named(files, "MAIN.BMP"@, k);
    lemma_sprite_vars_distinct(0, 3);
    lemma_sprite_vars_distinct(0, 11);
    assert(sprite_path(files, 0) == "MAIN.BMP"@);
    law_sprite_sheets_served(files, 0);
}


/// A skin whose titlebar is cut from PLEDIT.BMP (GEN.BMP missing or not an
/// image) gets no title plate: PLEDIT's title area has text baked in, so the
/// title sits on the bars (`gentitle` is "transparent").
pub proof fn law_pledit_titlebar_has_no_plate(files: Seq<(Seq<char>, Option<Seq<u8>>)>)
    requires
        decoded_file(files, "GEN.BMP"@) is None,
        decoded_file(files, "PLEDIT.BMP"@) is Some,
    ensures
        custom_skin(files).contains_key("gentitle"@),
        custom_skin(files)["gentitle"@] == "transparent"@,
{
    let sheet = decoded_file(files, "PLEDIT.BMP"@)->0;
    let sprites = sprite_entries(files, 13);
    let head = titlebar_tiles(sheet, false) + titlebar_color_entries(sheet, false);
    let plate = plate_entry(sheet, false);
    assert(plate == seq![("gentitle"@, "transparent"@)]);
    assert(sheet_part(files) == head + plate);
    let tail = genex_part(files) + pledit_part(files);
    assert(skin_entries(files) =~= (sprites + head + plate) + tail);
    lemma_overlay_concat(Map::empty(), sprites + head + plate, tail);
    assert((sprites + head + plate).drop_last() =~= sprites + head);
    let before_tail = overlay(Map::empty(), sprites + head + plate);
    assert(before_tail.contains_key("gentitle"@) && before_tail["gentitle"@] == "transparent"@);
    reveal_strlit("gentitle");
    reveal_strlit("genexitembg");
    reveal_strlit("genexitemfg");
    reveal_strlit("genexwndbg");
    reveal_strlit("genexbtntext");
    reveal_strlit("genexwndtext");
    reveal_strlit("genexdivider");
    reveal_strlit("genexselbg");
    reveal_strlit("genexhdrbg");
    reveal_strlit("genexhdrtext");
    reveal_strlit("genexbtn");
    reveal_strlit("genexbtnp");
    reveal_strlit("plnormal");
    reveal_strlit("plcurrent");
    reveal_strlit("plbg");
    reveal_strlit("plselbg");
    assert forall|i: int| 0 <= i < tail.len() implies #[trigger] tail[i].0 != "gentitle"@ by {
        if genex_part(files).len() <= i {
            lemma_pledit_part_keys(files, i - genex_part(files).len());
            assert(tail[i] == pledit_part(files)[i - genex_part(files).len()]);
        } else {
            lemma_genex_part_keys(files, i);
            assert(tail[i] == genex_part(files)[i]);
        }
        let v = tail[i].0;
        let g = "gentitle"@;
        assert(v.len() != g.len() || v[0] != g[0] || v[3] != g[3]);
    }
    lemma_overlay_untouched(before_tail, tail, "gentitle"@);
    law_derive_fills_gaps(overlay(Map::empty(), skin_entries(files)), "gentitle"@);
}

proof fn lemma_pledit_part_keys(files: Seq<(Seq<char>, Option<Seq<u8>>)>, i: int)
    requires
        0 <= i < pledit_part(files).len(),
    ensures
        ({
            let v = pledit_part(files)[i].0;
            v == "plnormal"@ || v == "plcurrent"@ || v == "plbg"@ || v == "plselbg"@
        }),
{
    let bytes = readable(files, "PLEDIT.TXT"@)->0;
    lemma_pledit_scan_keys(utf8_lossy(bytes), 0, 0, i);
}

proof fn lemma_pledit_scan_keys(text: Seq<char>, i: int, start: int, k: int)
    requires
        0 <= k < pledit_scan(text, i, start).len(),
    ensures
        ({
            let v = pledit_scan(text, i, start)[k].0;
            v == "plnormal"@ || v == "plcurrent"@ || v == "plbg"@ || v == "plselbg"@
        }),
    decreases text.len() - i,
{
    if i < 0 || i >= text.len() {
    } else if text[i] == '\n' {
        let head = line_entry(crate::pledit::strip_cr(text.subrange(start, i)));
        if k >= head.len() {
            lemma_pledit_scan_keys(text, i + 1, i + 1, k - head.len());
        }
    } else {
        lemma_pledit_scan_keys(text, i + 1, start, k);
    }
}

proof fn lemma_genex_part_keys(files: Seq<(Seq<char>, Option<Seq<u8>>)>, i: int)
    requires
        0 <= i < genex_part(files).len(),
    ensures
        ({
            let v = genex_part(files)[i].0;
            ||| v == "genexitembg"@ || v == "genexitemfg"@ || v == "genexwndbg"@ || v == "genexbtntext"@
            ||| v == "genexwndtext"@ || v == "genexdivider"@ || v == "genexselbg"@ || v == "genexhdrbg"@
            ||| v == "genexhdrtext"@ || v == "genexbtn"@ || v == "genexbtnp"@
        }),
{
    let g = decoded_file(files, "GENEX.BMP"@)->0;
    let cs = genex_color_entries(g, 9);
    let bs = genex_button_entries(g);
    if i < cs.len() {
        lemma_genex_color_scan_keys(g, 9, i);
        assert(genex_part(files)[i] == cs[i]);
    } else {
        assert(genex_part(files)[i] == bs[i - cs.len()]);
    }
}

proof fn lemma_genex_color_scan_keys(g: PixView, n: int, i: int)
    requires
        n <= 9,
        0 <= i < genex_color_entries(g, n).len(),
    ensures
        exists|j: int| 0 <= j < 9 && genex_color_entries(g, n)[i].0 == #[trigger] genex_color_table()[j].0,
    decreases n,
{
    let prev = genex_color_entries(g, n - 1);
    if i < prev.len() {
        lemma_genex_color_scan_keys(g, n - 1, i);
        assert(genex_color_entries(g, n)[i] == prev[i]);
        let j = choose|j: int| 0 <= j < 9 && prev[i].0 == #[trigger] genex_color_table()[j].0;
        assert(genex_color_entries(g, n)[i].0 == genex_color_table()[j].0);
    } else {
        assert(genex_color_entries(g, n)[i].0 == genex_color_table()[n - 1].0);
    }
}

proof fn lemma_overlay_value(base: Map<Seq<char>, Seq<char>>, s: Seq<(Seq<char>, Seq<char>)>, k: Seq<char>, v: Seq<char>)
    requires
        s.contains((k, v)),
        forall|t: int| 0 <= t < s.len() && (#[trigger] s[t]).0 == k ==> s[t].1 == v,
    ensures
        overlay(base, s).contains_key(k),
        overlay(base, s)[k] == v,
    decreases s.len(),
{
    if s.last().0 != k {
        let d = s.drop_last();
        let w = choose|t: int| 0 <= t < s.len() && s[t] == (k, v);
        assert(w < s.len() - 1);
        assert(d[w] == s[w]);
        assert forall|t: int| 0 <= t < d.len() && (#[trigger] d[t]).0 == k implies d[t].1 == v by {
            assert(d[t] == s[t]);
        }
        lemma_overlay_value(base, d, k, v);
    }
}

/// A skin with a GENEX.BMP big enough for both button faces gets its pressed
/// face served: `genexbtnp` is the PNG data URL of the 47x15 block at
/// (0, 15), whatever else the skin holds.
pub proof fn law_skin_serves_pressed_button(files: Seq<(Seq<char>, Option<Seq<u8>>)>)
    requires
        decoded_file(files, "GENEX.BMP"@) matches Some(g) && g.width >= 47 && g.height >= 30
            && png_encoding(crop_view(g, 0, 15, 47, 15)) is Some,
    ensures
        ({
            let g = decoded_file(files, "GENEX.BMP"@)->0;
            let png = png_encoding(crop_view(g, 0, 15, 47, 15))->0;
            &&& custom_skin(files).contains_key("genexbtnp"@)
            &&& custom_skin(files)["genexbtnp"@] == data_url("data:image/png;base64,"@, png)
        }),
{
    let g = decoded_file(files, "GENEX.BMP"@)->0;
    let png = png_encoding(crop_view(g, 0, 15, 47, 15))->0;
    let k = "genexbtnp"@;
    let v = data_url("data:image/png;base64,"@, png);
    law_genex_button_faces(g);
    let sp = sprite_entries(files, 13);
    let a = sheet_part(files);
    let b = genex_part(files);
    let c = pledit_part(files);
    assert(skin_entries(files) == sp + a + b + c);
    lemma_overlay_concat(Map::empty(), sp + a, b);
    lemma_overlay_concat(Map::empty(), sp + a + b, c);
    let m0 = overlay(Map::empty(), sp + a);
    lemma_overlay_value(m0, b, k, v);
    let m1 = overlay(m0, b);
    reveal_strlit("genexbtnp");
    reveal_strlit("plnormal");
    reveal_strlit("plcurrent");
    reveal_strlit("plbg");
    reveal_strlit("plselbg");
    assert forall|i: int| 0 <= i < c.len() implies #[trigger] c[i].0 != k by {
        lemma_pledit_part_keys(files, i);
        assert(c[i].0[0] == 'p');
        assert(k[0] == 'g');
    }
    lemma_overlay_untouched(m1, c, k);
    let m = overlay(Map::empty(), skin_entries(files));
    assert(m == overlay(m1, c));
    assert(m.contains_key(k) && m[k] == v);
    reveal_strlit("genexwndbg");
    reveal_strlit("genexitembg");
    reveal_strlit("genexhdrbg");
    reveal_strlit("genexitemfg");
    reveal_strlit("genexwndtext");
    reveal_strlit("genexhdrtext");
    reveal_strlit("genexbtntext");
    reveal_strlit("genexselbg");
    reveal_strlit("genexdivider");
    assert(k.len() == 9);
}

} // verus!
