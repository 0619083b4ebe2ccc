//! Small verified string helpers shared by the tools: character-exact
//! equality, ASCII case-insensitive equality, lowercasing, and decimal
//! rendering of numbers.

use vstd::prelude::*;
use vstd::string::StrSliceExecFns;
use vstd::string::StringExecFns;

use crate::layout::pad_spaces;
use crate::layout::spaces;
use crate::layout::views;

verus! {

/// True when the two strings are the same sequence of characters.
pub fn str_eq(a: &str, b: &str) -> (r: bool)
    ensures
        r == (a@ == b@),
{
    let la = a.unicode_len();
    let lb = b.unicode_len();
    if la != lb {
        return false;
    }
    let mut i: usize = 0;
    while i < la
        invariant
            i <= la,
            la == a@.len(),
            lb == b@.len(),
            la == lb,
            forall|j: int| 0 <= j < i ==> a@[j] == b@[j],
        decreases la - i,
    {
        let ca = a.get_char(i);
        let cb = b.get_char(i);
        if ca != cb {
            return false;
        }
        i += 1;
    }
    proof {
        assert(a@ =~= b@);
    }
    true
}

/// ASCII case folding of one character: upper-case ASCII letters become
/// lower case, everything else is left alone.
pub open spec fn ascii_fold(c: char) -> char {
    if 'A' <= c && c <= 'Z' {
        (((c as u8) + 32) as char)
    } else {
        c
    }
}

/// Equality up to ASCII case.
pub open spec fn folds_equal(a: Seq<char>, b: Seq<char>) -> bool {
    a.map_values(|c: char| ascii_fold(c)) == b.map_values(|c: char| ascii_fold(c))
}

/// Folds one character at run time.
fn fold_char(c: char) -> (r: char)
    ensures
        r == ascii_fold(c),
{
    if c >= 'A' && c <= 'Z' {
        ((c as u8) + 32) as char
    } else {
        c
    }
}

/// True when the two strings are equal up to ASCII case, the comparison
/// `OsStr::eq_ignore_ascii_case` makes on path components.
pub fn eq_ignore_ascii_case(a: &str, b: &str) -> (r: bool)
    ensures
        r == folds_equal(a@, b@),
{
    let ghost fa = a@.map_values(|c: char| ascii_fold(c));
    let ghost fb = b@.map_values(|c: char| ascii_fold(c));
    let la = a.unicode_len();
    let lb = b.unicode_len();
    if la != lb {
        proof {
            assert(fa.len() != fb.len());
        }
        return false;
    }
    let mut i: usize = 0;
    while i < la
        invariant
            i <= la,
            la == a@.len(),
            lb == b@.len(),
            la == lb,
            fa == a@.map_values(|c: char| ascii_fold(c)),
            fb == b@.map_values(|c: char| ascii_fold(c)),
            forall|j: int| 0 <= j < i ==> fa[j] == fb[j],
        decreases la - i,
    {
        let ca = fold_char(a.get_char(i));
        let cb = fold_char(b.get_char(i));
        if ca != cb {
            proof {
                assert(fa[i as int] != fb[i as int]);
            }
            return false;
        }
        i += 1;
    }
    proof {
        assert(fa =~= fb);
    }
    true
}

/// What `str::to_lowercase` returns for a given sequence of characters: a
/// function of the characters alone, named rather than spelled out.
pub uninterp spec fn lower_of(s: Seq<char>) -> Seq<char>;

/// Relies on str::to_lowercase: the Unicode-lowercased text, a function of
/// the input characters alone; an empty input stays empty.
#[verifier::external_body]
pub(crate) fn lowercase(s: &str) -> (r: String)
    ensures
        r@ == lower_of(s@),
        s@.len() == 0 ==> r@.len() == 0,
{
    s.to_lowercase()
}

/// `s` padded on the left with spaces to width `w`; a longer `s` is kept
/// whole.
pub open spec fn pad_left_spec(s: Seq<char>, w: nat) -> Seq<char> {
    if s.len() >= w {
        s
    } else {
        spaces((w - s.len()) as nat) + s
    }
}

/// `s` padded on the right with spaces to width `w`; a longer `s` is kept
/// whole.
pub open spec fn pad_right_spec(s: Seq<char>, w: nat) -> Seq<char> {
    if s.len() >= w {
        s
    } else {
        s + spaces((w - s.len()) as nat)
    }
}

/// Right-aligns `s` in a field `w` wide.
pub fn pad_left(s: &str, w: usize) -> (r: String)
    ensures
        r@ == pad_left_spec(s@, w as nat),
{
    let mut out = String::new();
    let l = s.unicode_len();
    if l < w {
        pad_spaces(&mut out, w - l);
    }
    out.append(s);
    proof {
        assert(out@ =~= pad_left_spec(s@, w as nat));
    }
    out
}

/// Left-aligns `s` in a field `w` wide.
pub fn pad_right(s: &str, w: usize) -> (r: String)
    ensures
        r@ == pad_right_spec(s@, w as nat),
{
    let mut out = String::from_str(s);
    let l = s.unicode_len();
    if l < w {
        pad_spaces(&mut out, w - l);
    }
    proof {
        assert(out@ =~= pad_right_spec(s@, w as nat));
    }
    out
}

/// The lines joined by single newlines, with no trailing newline.
pub open spec fn joined_lines(lines: Seq<Seq<char>>) -> Seq<char>
    decreases lines.len(),
{
    if lines.len() == 0 {
        Seq::empty()
    } else if lines.len() == 1 {
        lines[0]
    } else {
        lines[0] + seq!['\n'] + joined_lines(lines.drop_first())
    }
}

/// Joining one more line appends one newline and the line.
pub proof fn lemma_joined_lines_push(lines: Seq<Seq<char>>, x: Seq<char>)
    requires
        lines.len() >= 1,
    ensures
        joined_lines(lines.push(x)) == joined_lines(lines) + seq!['\n'] + x,
    decreases lines.len(),
{
    if lines.len() == 1 {
        assert(lines.push(x).drop_first() =~~= seq![x]);
        assert(lines.push(x)[0] == lines[0]);
        assert(joined_lines(seq![x]) == x);
        assert(joined_lines(lines.push(x)) == lines[0] + seq!['\n'] + x);
        assert(joined_lines(lines) == lines[0]);
    } else {
        lemma_joined_lines_push(lines.drop_first(), x);
        assert(lines.push(x).drop_first() =~~= lines.drop_first().push(x));
        assert(lines.push(x)[0] == lines[0]);
        assert(joined_lines(lines.push(x)) == lines[0] + seq!['\n'] + joined_lines(
            lines.drop_first().push(x),
        ));
        assert(lines[0] + seq!['\n'] + (joined_lines(lines.drop_first()) + seq!['\n'] + x) =~= (
        lines[0] + seq!['\n'] + joined_lines(lines.drop_first())) + seq!['\n'] + x);
    }
}

/// Joins the lines with single newlines; the empty list gives the empty
/// string.
pub fn join_lines(lines: &Vec<String>) -> (r: String)
    ensures
        r@ == joined_lines(views(lines@)),
{
    let ghost lv = views(lines@);
    let mut out = String::new();
    if lines.len() == 0 {
        proof {
            assert(out@ =~= joined_lines(lv));
        }
        return out;
    }
    out.append(lines[0].as_str());
    proof {
        assert(lv.take(1)[0] == lv[0]);
        assert(joined_lines(lv.take(1)) == lv[0]);
        assert(lv[0] == lines@[0]@);
    }
    let mut i: usize = 1;
    while i < lines.len()
        invariant
            1 <= i <= lv.len(),
            lv == views(lines@),
            out@ == joined_lines(lv.take(i as int)),
        decreases lv.len() - i,
    {
        out.append("\n");
        out.append(lines[i].as_str());
        proof {
            reveal_strlit("\n");
            assert("\n"@ =~= seq!['\n']);
            assert(lv.take(i as int).len() >= 1);
            lemma_joined_lines_push(lv.take(i as int), lv[i as int]);
            assert(lv.take(i + 1) =~~= lv.take(i as int).push(lv[i as int]));
            assert(lv[i as int] == lines@[i as int]@);
        }
        i += 1;
    }
    proof {
        assert(lv.take(lv.len() as int) =~= lv);
    }
    out
}

} // verus!
