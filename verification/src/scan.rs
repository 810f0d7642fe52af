//! The directory-scan filter: which entries of a folder count as image
//! files.
//!
//! An entry counts when its extension, compared without regard to ASCII
//! case, is one of `jpg`, `jpeg`, `png`, `webp`, `bmp`, `gif`. The
//! enumeration of the directory itself is I/O and happens outside this
//! crate; it hands the entry paths in here as strings, and the filter
//! keeps exactly the image files among them, in the order given.

use vstd::prelude::*;
use crate::paths::{extension, extension_of};

verus! {

/// `c` with an ASCII capital letter lowered to its small form; any other
/// character is kept as it is.
pub open spec fn lower_char(c: char) -> char {
    match c {
        'A' => 'a',
        'B' => 'b',
        'C' => 'c',
        'D' => 'd',
        'E' => 'e',
        'F' => 'f',
        'G' => 'g',
        'H' => 'h',
        'I' => 'i',
        'J' => 'j',
        'K' => 'k',
        'L' => 'l',
        'M' => 'm',
        'N' => 'n',
        'O' => 'o',
        'P' => 'p',
        'Q' => 'q',
        'R' => 'r',
        'S' => 's',
        'T' => 't',
        'U' => 'u',
        'V' => 'v',
        'W' => 'w',
        'X' => 'x',
        'Y' => 'y',
        'Z' => 'z',
        _ => c,
    }
}

/// `s` with every ASCII capital letter lowered.
pub open spec fn lowered(s: Seq<char>) -> Seq<char> {
    s.map_values(|c: char| lower_char(c))
}

/// Whether `e` is one of the recognized image extensions, written in
/// small letters.
pub open spec fn recognized_ext(e: Seq<char>) -> bool {
    ||| e == seq!['j', 'p', 'g']
    ||| e == seq!['j', 'p', 'e', 'g']
    ||| e == seq!['p', 'n', 'g']
    ||| e == seq!['w', 'e', 'b', 'p']
    ||| e == seq!['b', 'm', 'p']
    ||| e == seq!['g', 'i', 'f']
}

/// Whether the path `p` names an image file: it has an extension whose
/// lowered form is recognized.
pub open spec fn is_image_path(p: Seq<char>) -> bool {
    match extension_of(p) {
        Some(e) => recognized_ext(lowered(e)),
        None => false,
    }
}

/// The image files among the scanned entries, in the order given.
pub open spec fn image_filter(entries: Seq<Seq<char>>) -> Seq<Seq<char>> {
    entries.filter(|p: Seq<char>| is_image_path(p))
}

/// `lower_char(c)` as a computed value.
fn char_lowered(c: char) -> (r: char)
    ensures
        r == lower_char(c),
{
    match c {
        'A' => 'a',
        'B' => 'b',
        'C' => 'c',
        'D' => 'd',
        'E' => 'e',
        'F' => 'f',
        'G' => 'g',
        'H' => 'h',
        'I' => 'i',
        'J' => 'j',
        'K' => 'k',
        'L' => 'l',
        'M' => 'm',
        'N' => 'n',
        'O' => 'o',
        'P' => 'p',
        'Q' => 'q',
        'R' => 'r',
        'S' => 's',
        'T' => 't',
        'U' => 'u',
        'V' => 'v',
        'W' => 'w',
        'X' => 'x',
        'Y' => 'y',
        'Z' => 'z',
        _ => c,
    }
}

/// Whether the extension `e`, lowered, is a recognized image extension.
fn ext_recognized(e: &str) -> (r: bool)
    ensures
        r == recognized_ext(lowered(e@)),
{
    let n: usize = e.unicode_len();
    if n == 3 {
        let c0 = char_lowered(e.get_char(0));
        let c1 = char_lowered(e.get_char(1));
        let c2 = char_lowered(e.get_char(2));
        let r = (c0 == 'j' && c1 == 'p' && c2 == 'g') || (c0 == 'p' && c1 == 'n' && c2 == 'g') || (
        c0 == 'b' && c1 == 'm' && c2 == 'p') || (c0 == 'g' && c1 == 'i' && c2 == 'f');
        proof {
            if r {
                if c0 == 'j' {
                    assert(lowered(e@) =~= seq!['j', 'p', 'g']);
                } else if c0 == 'p' {
                    assert(lowered(e@) =~= seq!['p', 'n', 'g']);
                } else if c0 == 'b' {
                    assert(lowered(e@) =~= seq!['b', 'm', 'p']);
                } else {
                    assert(lowered(e@) =~= seq!['g', 'i', 'f']);
                }
            }
        }
        r
    } else if n == 4 {
        let c0 = char_lowered(e.get_char(0));
        let c1 = char_lowered(e.get_char(1));
        let c2 = char_lowered(e.get_char(2));
        let c3 = char_lowered(e.get_char(3));
        let r = (c0 == 'j' && c1 == 'p' && c2 == 'e' && c3 == 'g') || (c0 == 'w' && c1 == 'e' && c2
            == 'b' && c3 == 'p');
        proof {
            if r {
                if c0 == 'j' {
                    assert(lowered(e@) =~= seq!['j', 'p', 'e', 'g']);
                } else {
                    assert(lowered(e@) =~= seq!['w', 'e', 'b', 'p']);
                }
            }
        }
        r
    } else {
        false
    }
}

/// Whether `path` names an image file: its extension, compared without
/// regard to ASCII case, is one of jpg, jpeg, png, webp, bmp, gif.
pub fn is_image_file(path: &str) -> (r: bool)
    ensures
        r == is_image_path(path@),
{
    match extension(path) {
        Some(e) => ext_recognized(e.as_str()),
        None => false,
    }
}

/// Filtering one more entry extends the filtered sequence exactly when
/// the entry is an image file.
proof fn lemma_image_filter_push(s: Seq<Seq<char>>, x: Seq<char>)
    ensures
        image_filter(s.push(x)) == if is_image_path(x) {
            image_filter(s).push(x)
        } else {
            image_filter(s)
        },
{
    reveal(Seq::filter);
    assert(s.push(x).drop_last() =~= s);
    assert(s.push(x).last() == x);
}

/// What the scan keeps, exactly: a path is among the image files of a
/// scan iff it was among the scanned entries and names an image file.
pub proof fn lemma_image_filter_membership(entries: Seq<Seq<char>>, p: Seq<char>)
    ensures
        image_filter(entries).contains(p) <==> entries.contains(p) && is_image_path(p),
    decreases entries.len(),
{
    reveal(Seq::filter);
    if entries.len() > 0 {
        let head = entries.drop_last();
        let x = entries.last();
        lemma_image_filter_membership(head, p);
        assert(entries =~= head.push(x));
        lemma_image_filter_push(head, x);
        if entries.contains(p) && is_image_path(p) {
            if p == x {
                assert(image_filter(entries).last() == p);
                assert(image_filter(entries).contains(p));
            } else {
                let i = choose|i: int| 0 <= i < entries.len() && entries[i] == p;
                assert(head[i] == p);
                assert(head.contains(p));
                assert(image_filter(head).contains(p));
                let j = choose|j: int| 0 <= j < image_filter(head).len() && image_filter(head)[j]
                    == p;
                assert(image_filter(entries)[j] == p);
                assert(image_filter(entries).contains(p));
            }
        }
        if image_filter(entries).contains(p) {
            let j = choose|j: int|
                0 <= j < image_filter(entries).len() && image_filter(entries)[j] == p;
            if is_image_path(x) && j == image_filter(entries).len() - 1 {
                assert(p == x);
                assert(entries[entries.len() - 1] == p);
                assert(entries.contains(p));
            } else {
                assert(image_filter(head)[j] == p);
                assert(image_filter(head).contains(p));
                let i = choose|i: int| 0 <= i < head.len() && head[i] == p;
                assert(entries[i] == p);
                assert(entries.contains(p));
            }
        }
    }
}

/// The entries of a scanned directory that name image files: exactly
/// those of `entries` with a recognized image extension, in the order
/// given.
pub fn filter_image_paths(entries: &Vec<String>) -> (r: Vec<String>)
    ensures
        r.deep_view() == image_filter(entries.deep_view()),
{
    let mut out: Vec<String> = Vec::new();
    let n: usize = entries.len();
    proof {
        reveal(Seq::filter);
        assert(entries.deep_view().take(0) =~= Seq::<Seq<char>>::empty());
        assert(out.deep_view() =~= image_filter(entries.deep_view().take(0)));
    }
    for i in 0..n
        invariant
            n == entries@.len(),
            out.deep_view() == image_filter(entries.deep_view().take(i as int)),
    {
        let ghost pre = out.deep_view();
        if is_image_file(entries[i].as_str()) {
            out.push(entries[i].clone());
            proof {
                assert(out.deep_view() =~= pre.push(entries@[i as int]@));
            }
        }
        proof {
            assert(entries.deep_view().take(i + 1) =~= entries.deep_view().take(i as int).push(
                entries@[i as int]@,
            ));
            lemma_image_filter_push(entries.deep_view().take(i as int), entries@[i as int]@);
        }
    }
    proof {
        assert(entries.deep_view().take(n as int) =~= entries.deep_view());
    }
    out
}

} // verus!
