//! Reference resolution heuristics: deciding whether a queue reference is
//! a URL or a search phrase, and whether it names a playlist.
//!
//! The decisions are made on the lowercased reference, so the contracts
//! speak of `lower_of`, the named result of case folding.

use vstd::prelude::*;

use crate::external::chars_vec;
use crate::external::string_from_chars;
use crate::external::lower_of;
use crate::external::to_lowercase;

verus! {

/// True when `s` begins with `p`.
pub open spec fn seq_starts_with(s: Seq<char>, p: Seq<char>) -> bool {
    s.len() >= p.len() && s.subrange(0, p.len() as int) == p
}

/// True when `p` occurs somewhere in `s`.
pub open spec fn seq_contains(s: Seq<char>, p: Seq<char>) -> bool {
    exists|i: int|
        0 <= i && i + p.len() <= s.len() && #[trigger] s.subrange(i, i + p.len() as int) == p
}

/// True of lowercased references the resolver treats as URLs: an explicit
/// http scheme, or a known media site's host occurring in the text.
pub open spec fn url_like(l: Seq<char>) -> bool {
    ||| seq_starts_with(l, "http://"@)
    ||| seq_starts_with(l, "https://"@)
    ||| seq_contains(l, "youtube.com"@)
    ||| seq_contains(l, "youtu.be"@)
    ||| seq_contains(l, "vimeo.com"@)
    ||| seq_contains(l, "dailymotion.com"@)
    ||| seq_contains(l, "twitch.tv"@)
    ||| seq_contains(l, "soundcloud.com"@)
    ||| seq_contains(l, "bandcamp.com"@)
}

/// True of lowercased references that name a whole playlist: a youtube
/// host together with a list parameter or a playlist path.
pub open spec fn playlist_like(l: Seq<char>) -> bool {
    &&& (seq_contains(l, "youtube.com"@) || seq_contains(l, "youtu.be"@))
    &&& (seq_contains(l, "list="@) || seq_contains(l, "/playlist?"@))
}

/// True when character vector `s` begins with `p`.
fn chars_start_with(s: &Vec<char>, p: &Vec<char>) -> (r: bool)
    ensures
        r == seq_starts_with(s@, p@),
{
    if p.len() > s.len() {
        return false;
    }
    let mut k: usize = 0;
    while k < p.len()
        invariant
            k <= p@.len(),
            p@.len() <= s@.len(),
            forall|j: int| 0 <= j < k ==> s@[j] == p@[j],
        decreases p@.len() - k,
    {
        if s[k] != p[k] {
            proof {
                if seq_starts_with(s@, p@) {
                    assert(s@.subrange(0, p@.len() as int)[k as int] == s@[k as int]);
                }
            }
            return false;
        }
        k = k + 1;
    }
    proof {
        assert(s@.subrange(0, p@.len() as int) =~= p@);
    }
    true
}

/// True when character vector `p` occurs in `s`.
#[verifier::loop_isolation(false)]
fn chars_contain(s: &Vec<char>, p: &Vec<char>) -> (r: bool)
    ensures
        r == seq_contains(s@, p@),
{
    if p.len() > s.len() {
        return false;
    }
    if p.len() == 0 {
        proof {
            assert(s@.subrange(0, 0 + p@.len() as int) =~= p@);
        }
        return true;
    }
    let mut i: usize = 0;
    while i <= s.len() - p.len()
        invariant
            1 <= p@.len() <= s@.len(),
            i <= s@.len() - p@.len() + 1,
            forall|i2: int|
                0 <= i2 < i ==> #[trigger] s@.subrange(i2, i2 + p@.len() as int) != p@,
        decreases s@.len() - p@.len() + 1 - i,
    {
        let mut k: usize = 0;
        let mut hit = true;
        while k < p.len()
            invariant
                k <= p@.len(),
                i + p@.len() <= s@.len(),
                hit ==> forall|j: int| 0 <= j < k ==> s@[i + j] == p@[j],
                !hit ==> s@.subrange(i as int, i + p@.len() as int) != p@,
            decreases p@.len() - k,
        {
            if s[i + k] != p[k] {
                proof {
                    if s@.subrange(i as int, i + p@.len() as int) == p@ {
                        assert(s@.subrange(i as int, i + p@.len() as int)[k as int] == s@[i + k]);
                    }
                }
                hit = false;
                k = p.len();
            } else {
                k = k + 1;
            }
        }
        if hit {
            proof {
                assert(s@.subrange(i as int, i + p@.len() as int) =~= p@);
            }
            return true;
        }
        i = i + 1;
    }
    false
}

/// Decide whether the reference is a URL rather than a search phrase, by
/// scheme prefix or known media host, case-insensitively.
pub fn is_url(input: &str) -> (r: bool)
    ensures
        r == url_like(lower_of(input@)),
{
    let lower = to_lowercase(input);
    let cs = chars_vec(lower.as_str());
    if chars_start_with(&cs, &chars_vec("http://")) {
        return true;
    }
    if chars_start_with(&cs, &chars_vec("https://")) {
        return true;
    }
    if chars_contain(&cs, &chars_vec("youtube.com")) {
        return true;
    }
    if chars_contain(&cs, &chars_vec("youtu.be")) {
        return true;
    }
    if chars_contain(&cs, &chars_vec("vimeo.com")) {
        return true;
    }
    if chars_contain(&cs, &chars_vec("dailymotion.com")) {
        return true;
    }
    if chars_contain(&cs, &chars_vec("twitch.tv")) {
        return true;
    }
    if chars_contain(&cs, &chars_vec("soundcloud.com")) {
        return true;
    }
    if chars_contain(&cs, &chars_vec("bandcamp.com")) {
        return true;
    }
    false
}

/// Decide whether the reference names a whole playlist, by youtube host
/// and list marker, case-insensitively.
pub fn is_youtube_playlist(url: &str) -> (r: bool)
    ensures
        r == playlist_like(lower_of(url@)),
{
    let lower = to_lowercase(url);
    let cs = chars_vec(lower.as_str());
    let yt = chars_contain(&cs, &chars_vec("youtube.com")) || chars_contain(
        &cs,
        &chars_vec("youtu.be"),
    );
    if !yt {
        return false;
    }
    chars_contain(&cs, &chars_vec("list=")) || chars_contain(&cs, &chars_vec("/playlist?"))
}

/// The reference handed to the resolver: URLs go through unchanged, a
/// search phrase becomes a first-result search target.
pub fn resolver_target(input: &str) -> (r: String)
    ensures
        url_like(lower_of(input@)) ==> r@ == input@,
        !url_like(lower_of(input@)) ==> r@ == "ytsearch1:"@ + input@,
{
    if is_url(input) {
        input.to_owned()
    } else {
        let mut out: Vec<char> = Vec::new();
        let mut head = chars_vec("ytsearch1:");
        let mut tail = chars_vec(input);
        out.append(&mut head);
        out.append(&mut tail);
        string_from_chars(&out)
    }
}

/// A flattened playlist entry's reference: already-absolute references go
/// through unchanged, bare video ids become watch URLs.
pub fn normalize_entry_url(entry: &str) -> (r: String)
    ensures
        seq_starts_with(entry@, "http"@) ==> r@ == entry@,
        !seq_starts_with(entry@, "http"@) ==> r@ == "https://www.youtube.com/watch?v="@
            + entry@,
{
    let cs = chars_vec(entry);
    if chars_start_with(&cs, &chars_vec("http")) {
        entry.to_owned()
    } else {
        let mut out: Vec<char> = Vec::new();
        let mut head = chars_vec("https://www.youtube.com/watch?v=");
        let mut tail = chars_vec(entry);
        out.append(&mut head);
        out.append(&mut tail);
        string_from_chars(&out)
    }
}

} // verus!
