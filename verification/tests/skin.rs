use std::io::Write;

use spotiamp::pledit::{parse_pledit, prefix_of_bytes};
use spotiamp::skin::{extract_wsz_bytes, get_custom_skin, SkinFile};
use spotiamp::wsz::SpriteMap;

fn zip_of(members: &[(&str, &[u8])]) -> Vec<u8> {
    let mut w = zip::ZipWriter::new(std::io::Cursor::new(Vec::new()));
    let opts = zip::write::SimpleFileOptions::default()
        .compression_method(zip::CompressionMethod::Stored);
    for (name, data) in members {
        w.start_file(*name, opts).unwrap();
        w.write_all(data).unwrap();
    }
    w.finish().unwrap().into_inner()
}

fn file(name: &str, bytes: &[u8]) -> SkinFile {
    SkinFile { name: name.to_string(), bytes: Some(bytes.to_vec()) }
}

fn value(m: &SpriteMap, key: &str) -> Option<String> {
    m.get(&key.to_string())
}

fn bmp_of(width: u32, height: u32, rgb: [u8; 3]) -> Vec<u8> {
    let img = image::RgbImage::from_pixel(width, height, image::Rgb(rgb));
    let mut out = Vec::new();
    image::DynamicImage::ImageRgb8(img)
        .write_to(&mut std::io::Cursor::new(&mut out), image::ImageFormat::Bmp)
        .unwrap();
    out
}

#[test]
fn extract_keeps_skin_sheets_by_upper_case_base_name() {
    let wsz = zip_of(&[
        ("MySkin/main.bmp", b"M"),
        ("MySkin/readme.txt", b"hello"),
        ("MySkin\\Pledit.txt", b"[Text]"),
        ("numbers.BMP", b"N"),
    ]);
    let x = extract_wsz_bytes(&wsz).expect("a zip");
    let names: Vec<&str> = x.files.iter().map(|f| f.name.as_str()).collect();
    assert_eq!(names, vec!["MAIN.BMP", "PLEDIT.TXT", "NUMBERS.BMP"]);
    assert_eq!(x.files[0].bytes.as_deref(), Some(&b"M"[..]));
    assert_eq!(x.files[1].bytes.as_deref(), Some(&b"[Text]"[..]));
    assert_eq!(x.failure, None);
}

#[test]
fn extract_without_main_reports_it() {
    let wsz = zip_of(&[("CBUTTONS.BMP", b"C")]);
    let x = extract_wsz_bytes(&wsz).expect("a zip");
    assert_eq!(x.files.len(), 1);
    assert_eq!(
        x.failure.as_deref(),
        Some("No MAIN.BMP in the archive — not a Winamp 2.x skin")
    );
}

#[test]
fn extract_rejects_non_zip() {
    let err = extract_wsz_bytes(b"definitely not a zip archive").err().expect("an error");
    assert!(err.starts_with("Not a valid .wsz/.zip ("), "{err}");
    assert!(err.ends_with(')'));
}

#[test]
fn sprites_become_bmp_data_urls_with_fallbacks() {
    let files = vec![
        file("MAIN.BMP", b"abc"),
        file("NUMS_EX.BMP", b"ab"),
        file("VOLUME.BMP", b"a"),
    ];
    let m = get_custom_skin(&files);
    assert_eq!(value(&m, "main").as_deref(), Some("data:image/bmp;base64,YWJj"));
    // NUMS_EX.BMP stands in for NUMBERS.BMP, VOLUME.BMP for BALANCE.BMP
    assert_eq!(value(&m, "numbers").as_deref(), Some("data:image/bmp;base64,YWI="));
    assert_eq!(value(&m, "volume").as_deref(), Some("data:image/bmp;base64,YQ=="));
    assert_eq!(value(&m, "balance").as_deref(), Some("data:image/bmp;base64,YQ=="));
    assert_eq!(value(&m, "eqmain"), None);
}

#[test]
fn unreadable_sheet_is_skipped_without_fallback() {
    let files = vec![
        SkinFile { name: "NUMBERS.BMP".to_string(), bytes: None },
        file("NUMS_EX.BMP", b"ab"),
    ];
    let m = get_custom_skin(&files);
    assert_eq!(value(&m, "numbers"), None);
}

#[test]
fn later_file_of_a_name_wins() {
    let files = vec![file("MAIN.BMP", b"a"), file("MAIN.BMP", b"abc")];
    let m = get_custom_skin(&files);
    assert_eq!(value(&m, "main").as_deref(), Some("data:image/bmp;base64,YWJj"));
}

#[test]
fn pledit_colours_and_derived_library_palette() {
    let txt = b"[Text]\r\nNormal=#00FF00\r\nCurrent = #FFFFFF\nNormalBG=\"#000000\"\r\nSelectedBG=#0000C6FF\nFont=Arial\n";
    let files = vec![file("PLEDIT.TXT", txt)];
    let m = get_custom_skin(&files);
    assert_eq!(value(&m, "plnormal").as_deref(), Some("#00FF00"));
    assert_eq!(value(&m, "plcurrent").as_deref(), Some("#FFFFFF"));
    assert_eq!(value(&m, "plbg").as_deref(), Some("#000000"));
    assert_eq!(value(&m, "plselbg").as_deref(), Some("#0000C6"));
    // no GENEX.BMP: the media-library palette follows the playlist colours
    assert_eq!(value(&m, "genexwndbg").as_deref(), Some("#000000"));
    assert_eq!(value(&m, "genexitembg").as_deref(), Some("#000000"));
    assert_eq!(value(&m, "genexhdrbg").as_deref(), Some("#000000"));
    assert_eq!(value(&m, "genexitemfg").as_deref(), Some("#00FF00"));
    assert_eq!(value(&m, "genexwndtext").as_deref(), Some("#00FF00"));
    assert_eq!(value(&m, "genexhdrtext").as_deref(), Some("#00FF00"));
    assert_eq!(value(&m, "genexbtntext").as_deref(), Some("#00FF00"));
    assert_eq!(value(&m, "genexselbg").as_deref(), Some("#0000C6"));
    assert_eq!(value(&m, "genexdivider").as_deref(), Some("#0000C6"));
}

#[test]
fn pledit_line_rules() {
    let pairs = parse_pledit(b"normal=#12345\nnormal=red\ncurrent=#ABCDEF12\nselectedbg=#ABCDE\xC3\xA9\nnobody\n  NORMALBG  =  \"#010203\"  ");
    assert_eq!(
        pairs,
        vec![
            ("plcurrent".to_string(), "#ABCDEF".to_string()),
            ("plbg".to_string(), "#010203".to_string()),
        ]
    );
    // an invalid UTF-8 byte decodes to U+FFFD and the line still parses
    let pairs = parse_pledit(b"\xFFnormal=#112233\n");
    assert_eq!(pairs, vec![]);
    let pairs = parse_pledit(b"normal=#112233\xFF\n");
    assert_eq!(pairs, vec![("plnormal".to_string(), "#112233".to_string())]);
}

#[test]
fn byte_prefix_respects_char_boundaries() {
    let s: Vec<char> = "#ab\u{e9}def".chars().collect();
    assert_eq!(prefix_of_bytes(&s, 7), Some("#ab\u{e9}de".chars().collect()));
    assert_eq!(prefix_of_bytes(&s, 4), None);
    assert_eq!(prefix_of_bytes(&s, 9), None);
    assert_eq!(prefix_of_bytes(&s, 0), Some(vec![]));
}

#[test]
fn titlebar_from_pledit_sheet() {
    let sheet = bmp_of(280, 186, [200, 200, 200]);
    let files = vec![file("PLEDIT.BMP", &sheet)];
    let m = get_custom_skin(&files);
    assert_eq!(value(&m, "titlebarcolor").as_deref(), Some("#C8C8C8"));
    assert_eq!(value(&m, "titletext").as_deref(), Some("#101014"));
    // PLEDIT has no plain plate: the title sits on the bars
    assert_eq!(value(&m, "gentitle").as_deref(), Some("transparent"));
    let tl = value(&m, "gentl").expect("left corner tile");
    assert!(tl.starts_with("data:image/png;base64,iVBORw0KGgo"), "{tl}");
    assert!(value(&m, "genfill").is_some());
    assert!(value(&m, "gentr").is_some());
}

#[test]
fn dark_titlebar_gets_light_text() {
    let sheet = bmp_of(200, 20, [20, 30, 40]);
    let files = vec![file("GEN.BMP", &sheet)];
    let m = get_custom_skin(&files);
    assert_eq!(value(&m, "titlebarcolor").as_deref(), Some("#141E28"));
    assert_eq!(value(&m, "titletext").as_deref(), Some("#f0f2f8"));
}

#[test]
fn genex_palette_pixels() {
    let mut img = image::RgbImage::from_pixel(70, 30, image::Rgb([1, 2, 3]));
    img.put_pixel(52, 0, image::Rgb([0x10, 0x20, 0x30]));
    let mut bytes = Vec::new();
    image::DynamicImage::ImageRgb8(img)
        .write_to(&mut std::io::Cursor::new(&mut bytes), image::ImageFormat::Bmp)
        .unwrap();
    let files = vec![file("GENEX.BMP", &bytes), file("PLEDIT.TXT", b"normalbg=#FFFFFF\n")];
    let m = get_custom_skin(&files);
    assert_eq!(value(&m, "genexwndbg").as_deref(), Some("#102030"));
    assert_eq!(value(&m, "genexitembg").as_deref(), Some("#010203"));
    // GENEX.BMP gave a palette: nothing is derived from PLEDIT.TXT
    assert_eq!(value(&m, "plbg").as_deref(), Some("#FFFFFF"));
    assert!(value(&m, "genexbtn").is_some());
    assert!(value(&m, "genexbtnp").is_some());
}

#[test]
fn undecodable_gen_falls_back_to_pledit() {
    let sheet = bmp_of(200, 20, [0, 0, 0]);
    let files = vec![file("GEN.BMP", b"not an image"), file("PLEDIT.BMP", &sheet)];
    let m = get_custom_skin(&files);
    assert_eq!(value(&m, "titlebarcolor").as_deref(), Some("#000000"));
    assert_eq!(value(&m, "gentitle").as_deref(), Some("transparent"));
}

#[test]
fn extracted_skin_serves_its_main_sheet() {
    let wsz = zip_of(&[("skin/Main.bmp", b"abc"), ("skin/volume.bmp", b"a")]);
    let x = extract_wsz_bytes(&wsz).expect("a zip");
    assert_eq!(x.failure, None);
    let m = get_custom_skin(&x.files);
    assert_eq!(value(&m, "main").as_deref(), Some("data:image/bmp;base64,YWJj"));
    assert_eq!(value(&m, "balance").as_deref(), Some("data:image/bmp;base64,YQ=="));
    assert_eq!(value(&m, "cbuttons"), None);
}

/// Offsets of every local and central header in a zip.
fn headers(zip: &[u8]) -> (Vec<usize>, Vec<usize>) {
    let mut local = Vec::new();
    let mut central = Vec::new();
    for i in 0..zip.len().saturating_sub(4) {
        match &zip[i..i + 4] {
            [0x50, 0x4b, 0x03, 0x04] => local.push(i),
            [0x50, 0x4b, 0x01, 0x02] => central.push(i),
            _ => {}
        }
    }
    (local, central)
}

#[test]
fn refused_member_stops_extraction() {
    let mut wsz = zip_of(&[("MAIN.BMP", b"abc"), ("TEXT.BMP", b"t")]);
    let (local, central) = headers(&wsz);
    // mark the second member as encrypted: it cannot be opened without a password
    wsz[local[1] + 6] |= 1;
    wsz[central[1] + 8] |= 1;
    let x = extract_wsz_bytes(&wsz).expect("a zip");
    assert_eq!(x.files.len(), 1);
    assert_eq!(x.files[0].name, "MAIN.BMP");
    let failure = x.failure.expect("a failure");
    assert!(failure.starts_with("Bad zip entry ("), "{failure}");
}

#[test]
fn unreadable_sheet_stops_extraction() {
    let mut wsz = zip_of(&[("readme.txt", b"hi"), ("Skin/main.bmp", b"abc")]);
    let (local, central) = headers(&wsz);
    // a wrong checksum makes reading the member fail at its end
    wsz[local[1] + 14] ^= 0xFF;
    wsz[central[1] + 16] ^= 0xFF;
    let x = extract_wsz_bytes(&wsz).expect("a zip");
    assert!(x.files.is_empty());
    let failure = x.failure.expect("a failure");
    assert!(failure.starts_with("Could not read MAIN.BMP ("), "{failure}");
}
