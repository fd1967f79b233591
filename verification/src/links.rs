//! The fixed external links the UI may open, and the one-shot OAuth URL the
//! login window picks up.

use vstd::prelude::*;
use crate::text::{chars_of, chars_eq, append_chars, string_from_chars};

verus! {

/// The URL a link target names: the UI names a target and the URL is resolved
/// here, so no caller can hand the shell an arbitrary URL, path or scheme.
pub open spec fn link_url(target: Seq<char>) -> Option<Seq<char>> {
    if target == "github"@ {
        Some("https://github.com/fdeox/spotiamp-plus"@)
    } else if target == "discord"@ {
        Some("https://discord.gg/8Rq5Xycny4"@)
    } else if target == "license"@ {
        Some("https://github.com/fdeox/spotiamp-plus/blob/main/LICENSE"@)
    } else {
        None
    }
}

/// Only the three named targets open anything, each its own `https` page:
/// no other text, however it looks, reaches the shell.
pub proof fn law_only_known_links(target: Seq<char>)
    ensures
        link_url(target) is Some <==> (target == "github"@ || target == "discord"@ || target == "license"@),
        link_url(target) matches Some(u) ==> u.take(8) == seq!['h', 't', 't', 'p', 's', ':', '/', '/'],
        link_url("github"@) != link_url("discord"@),
        link_url("github"@) != link_url("license"@),
        link_url("discord"@) != link_url("license"@),
{
    reveal_strlit("github");
    reveal_strlit("discord");
    reveal_strlit("license");
    reveal_strlit("https://github.com/fdeox/spotiamp-plus");
    reveal_strlit("https://discord.gg/8Rq5Xycny4");
    reveal_strlit("https://github.com/fdeox/spotiamp-plus/blob/main/LICENSE");
    assert("github"@.len() == 6 && "discord"@.len() == 7 && "license"@.len() == 7);
    assert("discord"@[0] == 'd' && "license"@[0] == 'l');
    assert("github"@ != "discord"@);
    assert("github"@ != "license"@);
    assert("discord"@ != "license"@);
    let g = "https://github.com/fdeox/spotiamp-plus"@;
    let d = "https://discord.gg/8Rq5Xycny4"@;
    let l = "https://github.com/fdeox/spotiamp-plus/blob/main/LICENSE"@;
    assert(g.take(8) =~= seq!['h', 't', 't', 'p', 's', ':', '/', '/']);
    assert(d.take(8) =~= seq!['h', 't', 't', 'p', 's', ':', '/', '/']);
    assert(l.take(8) =~= seq!['h', 't', 't', 'p', 's', ':', '/', '/']);
    assert(g.len() != d.len() && g.len() != l.len() && d.len() != l.len());
}

/// The URL to open for a link target, or the complaint for an unknown one.
pub fn external_link(target: &str) -> (r: Result<&'static str, String>)
    ensures
        match link_url(target@) {
            Some(url) => r matches Ok(u) && u@ == url,
            None => r matches Err(m) && m@ == "unknown link target: "@ + target@,
        },
{
    let t = chars_of(target);
    if chars_eq(&t, &chars_of("github")) {
        Ok("https://github.com/fdeox/spotiamp-plus")
    } else if chars_eq(&t, &chars_of("discord")) {
        Ok("https://discord.gg/8Rq5Xycny4")
    } else if chars_eq(&t, &chars_of("license")) {
        Ok("https://github.com/fdeox/spotiamp-plus/blob/main/LICENSE")
    } else {
        let mut m = chars_of("unknown link target: ");
        append_chars(&mut m, &t);
        Err(string_from_chars(&m))
    }
}

/// Hand out the pending OAuth URL once: it is taken out of the slot, and a
/// second request finds none.
pub fn take_auth_url(slot: &mut Option<String>) -> (r: Result<String, String>)
    ensures
        *final(slot) is None,
        match *old(slot) {
            Some(url) => r == Ok::<String, String>(url),
            None => r matches Err(m) && m@ == "no pending auth URL"@,
        },
{
    match slot.take() {
        Some(url) => Ok(url),
        None => Err("no pending auth URL".to_owned()),
    }
}

} // verus!
