//! Paths of the files inside an EPUB archive: decoding the URL form they are
//! referenced by and resolving them against the file that references them.
use vstd::prelude::*;

use crate::text::{
    join_chars, joined, chars_eq, extend_from, find_chars, find_first, lemma_find_from, slice_from, slice_range,
    split, split_chars, string_from_chars, to_chars,
};

verus! {

/// What `percent_encoding::percent_decode_str(s).decode_utf8_lossy()` returns.
pub uninterp spec fn percent_decoded(s: Seq<char>) -> Seq<char>;

/// Percent-decodes `s`, replacing invalid UTF-8 with U+FFFD. The result is
/// named `percent_decoded`.
#[verifier::external_body]
fn percent_decode_lossy(s: &str) -> (res: String)
    ensures
        res@ == percent_decoded(s@),
{
    percent_encoding::percent_decode_str(s).decode_utf8_lossy().into_owned()
}

/// `s` up to its first `#`: a reference without its fragment.
pub open spec fn before_fragment(s: Seq<char>) -> Seq<char> {
    match find_first(s, seq!['#']) {
        Some(i) => s.take(i),
        None => s,
    }
}

/// The archive path that a URL path denotes: fragment dropped, percent-decoded.
pub open spec fn url_path_decoded(s: Seq<char>) -> Seq<char> {
    percent_decoded(before_fragment(s))
}

/// Drops the fragment of a URL path and percent-decodes the rest.
pub fn decode_url_path(path: &str) -> (res: String)
    ensures
        res@ == url_path_decoded(path@),
{
    let chars = to_chars(path);
    let hash: Vec<char> = vec!['#'];
    assert(hash@ =~= seq!['#']);
    let head = match find_chars(chars.as_slice(), hash.as_slice()) {
        Some(i) => {
            proof {
                lemma_find_from(chars@, hash@, 0);
            }
            slice_range(chars.as_slice(), 0, i)
        },
        None => chars,
    };
    let head_str = string_from_chars(head.as_slice());
    percent_decode_lossy(head_str.as_str())
}

/// `s` without its leading slashes.
pub open spec fn trim_leading_slashes(s: Seq<char>) -> Seq<char>
    decreases s.len(),
{
    if s.len() > 0 && s[0] == '/' {
        trim_leading_slashes(s.drop_first())
    } else {
        s
    }
}

/// The directory part of `s`, through its last `/`, or nothing without one.
pub open spec fn dir_prefix(s: Seq<char>) -> Seq<char>
    decreases s.len(),
{
    if s.len() == 0 {
        Seq::empty()
    } else if s.last() == '/' {
        s
    } else {
        dir_prefix(s.drop_last())
    }
}

/// The path segments that remain after `.` and empty segments are dropped
/// and each `..` removes the segment before it (if any).
pub open spec fn collapse(parts: Seq<Seq<char>>) -> Seq<Seq<char>>
    decreases parts.len(),
{
    if parts.len() == 0 {
        Seq::empty()
    } else {
        let kept = collapse(parts.drop_last());
        let p = parts.last();
        if p == seq!['.', '.'] {
            if kept.len() > 0 {
                kept.drop_last()
            } else {
                kept
            }
        } else if p == seq!['.'] || p.len() == 0 {
            kept
        } else {
            kept.push(p)
        }
    }
}

/// Collapsing leaves no empty, `.` or `..` segment.
pub proof fn law_collapse_clean(parts: Seq<Seq<char>>)
    ensures
        forall|i: int| 0 <= i < collapse(parts).len() ==> {
            let p = #[trigger] collapse(parts)[i];
            p.len() > 0 && p != seq!['.'] && p != seq!['.', '.']
        },
    decreases parts.len(),
{
    if parts.len() > 0 {
        law_collapse_clean(parts.drop_last());
        let kept = collapse(parts.drop_last());
        let all = collapse(parts);
        assert forall|i: int| 0 <= i < all.len() implies {
            let p = #[trigger] all[i];
            p.len() > 0 && p != seq!['.'] && p != seq!['.', '.']
        } by {
            if i < kept.len() {
                assert(all[i] == kept[i]);
            }
        }
    }
}

/// An absolute reference resolves to a path without a leading slash.
pub proof fn law_absolute_reference_unrooted(base_file: Seq<char>, relative: Seq<char>)
    requires
        url_path_decoded(relative).len() > 0 && url_path_decoded(relative)[0] == '/',
    ensures
        resolved_path(base_file, relative).len() > 0 ==> resolved_path(base_file, relative)[0] != '/',
{
    lemma_trim_leading_slashes(url_path_decoded(relative));
}

proof fn lemma_trim_leading_slashes(s: Seq<char>)
    ensures
        trim_leading_slashes(s).len() > 0 ==> trim_leading_slashes(s)[0] != '/',
    decreases s.len(),
{
    if s.len() > 0 && s[0] == '/' {
        lemma_trim_leading_slashes(s.drop_first());
    }
}

/// The archive path that `relative`, referenced from the archive file
/// `base_file`, resolves to. An absolute reference loses its leading slashes;
/// a relative one is appended to the directory of `base_file` and its `.`
/// and `..` segments are collapsed.
pub open spec fn resolved_path(base_file: Seq<char>, relative: Seq<char>) -> Seq<char> {
    let rel = url_path_decoded(relative);
    if rel.len() > 0 && rel[0] == '/' {
        trim_leading_slashes(rel)
    } else {
        joined(collapse(split(dir_prefix(base_file) + rel, seq!['/'])), '/')
    }
}

/// The length of the directory part of `s`.
fn dir_prefix_len(s: &[char]) -> (k: usize)
    ensures
        k <= s@.len(),
        s@.take(k as int) == dir_prefix(s@),
{
    let mut k: usize = s.len();
    assert(s@.take(k as int) =~= s@);
    while k > 0 && s[k - 1] != '/'
        invariant
            k <= s@.len(),
            dir_prefix(s@.take(k as int)) == dir_prefix(s@),
        decreases k,
    {
        assert(s@.take(k as int).drop_last() =~= s@.take(k - 1));
        k = k - 1;
    }
    assert(s@.take(0) =~= Seq::<char>::empty());
    k
}

/// Resolve a relative path against a base file path within the EPUB zip.
pub fn resolve_path(base_file: &str, relative: &str) -> (res: String)
    ensures
        res@ == resolved_path(base_file@, relative@),
{
    let decoded = decode_url_path(relative);
    let rel = to_chars(decoded.as_str());
    if rel.len() > 0 && rel[0] == '/' {
        let mut k: usize = 0;
        assert(rel@.skip(0) =~= rel@);
        while k < rel.len() && rel[k] == '/'
            invariant
                k <= rel@.len(),
                trim_leading_slashes(rel@.skip(k as int)) == trim_leading_slashes(rel@),
            decreases rel@.len() - k,
        {
            assert(rel@.skip(k as int).drop_first() =~= rel@.skip(k + 1));
            k = k + 1;
        }
        let rest = slice_from(rel.as_slice(), k);
        return string_from_chars(rest.as_slice());
    }
    let base = to_chars(base_file);
    let dir_len = dir_prefix_len(base.as_slice());
    let mut combined = slice_range(base.as_slice(), 0, dir_len);
    extend_from(&mut combined, rel.as_slice());
    let slash: Vec<char> = vec!['/'];
    assert(slash@ =~= seq!['/']);
    let segments = split_chars(combined.as_slice(), slash.as_slice());
    let ghost segs_v = split(combined@, seq!['/']);
    let dot: Vec<char> = vec!['.'];
    let dotdot: Vec<char> = vec!['.', '.'];
    assert(dot@ =~= seq!['.']);
    assert(dotdot@ =~= seq!['.', '.']);
    let mut kept: Vec<Vec<char>> = Vec::new();
    let mut i: usize = 0;
    assert(segs_v.take(0) =~= Seq::<Seq<char>>::empty());
    while i < segments.len()
        invariant
            i <= segments@.len(),
            segments@.map_values(|v: Vec<char>| v@) == segs_v,
            dot@ == seq!['.'],
            dotdot@ == seq!['.', '.'],
            kept@.map_values(|v: Vec<char>| v@) == collapse(segs_v.take(i as int)),
        decreases segments@.len() - i,
    {
        let ghost before = kept@;
        let part = &segments[i];
        assert(part@ == segs_v[i as int]);
        assert(segs_v.take(i + 1).drop_last() =~= segs_v.take(i as int));
        assert(segs_v.take(i + 1).last() == segs_v[i as int]);
        if chars_eq(part.as_slice(), dotdot.as_slice()) {
            if kept.len() > 0 {
                kept.pop();
                assert(kept@.map_values(|v: Vec<char>| v@) =~= before.map_values(|v: Vec<char>| v@).drop_last());
            }
        } else if chars_eq(part.as_slice(), dot.as_slice()) || part.len() == 0 {
        } else {
            kept.push(part.clone());
            assert(kept@.map_values(|v: Vec<char>| v@) =~= before.map_values(|v: Vec<char>| v@).push(part@));
        }
        i = i + 1;
    }
    assert(segs_v.take(segs_v.len() as int) =~= segs_v);
    let path = join_chars(&kept, '/');
    string_from_chars(path.as_slice())
}

} // verus!
