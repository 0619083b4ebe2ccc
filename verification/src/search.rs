//! The file-finder's matching and highlighting: first-occurrence substring
//! search, optional case folding, bright-red highlighting of the matched
//! span, the `file:line:` prefix of file matches, and the step decision of
//! the search entry point.

use vstd::prelude::*;
use vstd::string::StrSliceExecFns;
use vstd::string::StringExecFns;

use crate::layout::views;
use crate::textutil::lower_of;
use crate::textutil::lowercase;

verus! {

/// Whether `needle` occurs in `hay` at position `i`.
pub open spec fn matches_at(hay: Seq<char>, needle: Seq<char>, i: int) -> bool {
    0 <= i && i + needle.len() <= hay.len() && hay.subrange(i, i + needle.len()) == needle
}

/// The position of the first occurrence of `needle` in `hay` at or after
/// `i`, if any.
pub open spec fn first_match_index(hay: Seq<char>, needle: Seq<char>, i: int) -> Option<int>
    decreases hay.len() - i + 1,
{
    if i < 0 || i + needle.len() > hay.len() {
        None
    } else if matches_at(hay, needle, i) {
        Some(i)
    } else {
        first_match_index(hay, needle, i + 1)
    }
}

/// Finds the first occurrence of `needle` in `hay`, by character position.
pub fn find_sub(hay: &str, needle: &str) -> (r: Option<usize>)
    ensures
        match r {
            Some(u) => first_match_index(hay@, needle@, 0) == Some(u as int),
            None => first_match_index(hay@, needle@, 0) is None,
        },
{
    let n = hay.unicode_len();
    let m = needle.unicode_len();
    if m > n {
        return None;
    }
    if m == 0 {
        proof {
            assert(hay@.subrange(0, 0) =~= needle@);
            assert(matches_at(hay@, needle@, 0));
        }
        return Some(0);
    }
    let mut i: usize = 0;
    while i <= n - m
        invariant
            1 <= m <= n,
            n == hay@.len(),
            m == needle@.len(),
            i <= n - m + 1,
            first_match_index(hay@, needle@, 0) == first_match_index(hay@, needle@, i as int),
        decreases n - i,
    {
        let mut k: usize = 0;
        let mut matched = true;
        while k < m
            invariant
                i + m <= n,
                n == hay@.len(),
                m == needle@.len(),
                k <= m,
                matched ==> forall|t: int| 0 <= t < k ==> hay@[i + t] == needle@[t],
                !matched ==> !matches_at(hay@, needle@, i as int),
            decreases m - k,
        {
            if matched {
                let ca = hay.get_char(i + k);
                let cb = needle.get_char(k);
                if ca != cb {
                    proof {
                        if matches_at(hay@, needle@, i as int) {
                            assert(hay@.subrange(i as int, i + m)[k as int] == hay@[i + k]);
                            assert(false);
                        }
                    }
                    matched = false;
                }
            }
            k += 1;
        }
        if matched {
            proof {
                assert(hay@.subrange(i as int, i + m) =~= needle@);
                assert(matches_at(hay@, needle@, i as int));
            }
            return Some(i);
        }
        proof {
            assert(first_match_index(hay@, needle@, i as int) == first_match_index(
                hay@,
                needle@,
                i + 1,
            ));
        }
        i += 1;
    }
    proof {
        assert(first_match_index(hay@, needle@, i as int) is None);
    }
    None
}

/// No escape character anywhere in `s`: the highlighter then wraps the text
/// without rewriting any part of it.
pub open spec fn esc_free(s: Seq<char>) -> bool {
    forall|i: int| 0 <= i < s.len() ==> s[i] != '\u{1b}'
}

/// Relies on colored::Colorize::bright_red and colored's Display impl for
/// ColoredString: when colors are disabled the text is printed unchanged,
/// and otherwise it is wrapped in the bright-red escape prefix and the reset
/// suffix. (colored rewrites embedded reset sequences, so nothing is claimed
/// of text that already holds an escape character.)
#[verifier::external_body]
fn bright_red(s: &str) -> (r: String)
    ensures
        esc_free(s@) ==> (r@ == s@ || r@ == "\u{1b}[91m"@ + s@ + "\u{1b}[0m"@),
{
    colored::Colorize::bright_red(s).to_string()
}

/// The possible renderings of `line` with the span `st .. en` highlighted:
/// unchanged when colors are off, or wrapped in the bright-red escapes.
pub open spec fn is_highlighted(out: Seq<char>, line: Seq<char>, st: int, en: int) -> bool {
    ||| out == line
    ||| out == line.take(st) + "\u{1b}[91m"@ + line.subrange(st, en) + "\u{1b}[0m"@ + line.skip(en)
}

/// The text a search looks at: the line itself, or its lowercased form for
/// a case-insensitive search.
pub open spec fn searched(s: Seq<char>, case_sensitive: bool) -> Seq<char> {
    if case_sensitive {
        s
    } else {
        lower_of(s)
    }
}

/// Where the query first matches in the searched form of `line`.
pub open spec fn line_match_start(line: Seq<char>, query: Seq<char>, case_sensitive: bool) -> Option<
    int,
> {
    first_match_index(searched(line, case_sensitive), searched(query, case_sensitive), 0)
}

/// The line the search reports for one candidate: the candidate itself with
/// the first occurrence of the query highlighted, or nothing when the query
/// does not occur. A case-insensitive search finds the position in the
/// lowercased text and highlights that span of the original; a span that
/// falls outside the original (lowercasing can change lengths) reports
/// nothing.
pub fn check_and_colorize_match(path: &str, query: &str, case_sensitive: bool) -> (r: Option<
    String,
>)
    ensures
        ({
            let st_opt = line_match_start(path@, query@, case_sensitive);
            match r {
                Some(s) => st_opt matches Some(st) && st + query@.len() <= path@.len() && (esc_free(
                    path@,
                ) ==> is_highlighted(s@, path@, st, st + query@.len())),
                None => match st_opt {
                    Some(st) => st + query@.len() > path@.len(),
                    None => true,
                },
            }
        }),
{
    let start_opt = if !case_sensitive {
        let lp = lowercase(path);
        let lq = lowercase(query);
        find_sub(lp.as_str(), lq.as_str())
    } else {
        find_sub(path, query)
    };
    match start_opt {
        None => None,
        Some(start) => {
            let qlen = query.unicode_len();
            let plen = path.unicode_len();
            if start <= plen && qlen <= plen - start {
                let end = start + qlen;
                let before = path.substring_char(0, start);
                let mid = path.substring_char(start, end);
                let after = path.substring_char(end, plen);
                let mut out = String::from_str(before);
                let red = bright_red(mid);
                out.append(red.as_str());
                out.append(after);
                proof {
                    if esc_free(path@) {
                        assert forall|t: int| 0 <= t < mid@.len() implies mid@[t] != '\u{1b}' by {
                            assert(mid@[t] == path@[start + t]);
                        }
                        assert(esc_free(mid@));
                        if red@ == mid@ {
                            assert(out@ =~= path@);
                        } else {
                            assert(out@ =~= path@.take(start as int) + "\u{1b}[91m"@
                                + path@.subrange(start as int, end as int) + "\u{1b}[0m"@
                                + path@.skip(end as int));
                        }
                    }
                }
                Some(out)
            } else {
                None
            }
        },
    }
}

/// The decimal digit characters.
pub open spec fn dec_digit(d: nat) -> char {
    if d == 0 {
        '0'
    } else if d == 1 {
        '1'
    } else if d == 2 {
        '2'
    } else if d == 3 {
        '3'
    } else if d == 4 {
        '4'
    } else if d == 5 {
        '5'
    } else if d == 6 {
        '6'
    } else if d == 7 {
        '7'
    } else if d == 8 {
        '8'
    } else {
        '9'
    }
}

/// The decimal rendering of `n`, most significant digit first.
pub open spec fn dec_str(n: nat) -> Seq<char>
    decreases n,
{
    if n < 10 {
        seq![dec_digit(n)]
    } else {
        dec_str(n / 10) + seq![dec_digit(n % 10)]
    }
}

/// One decimal digit as text.
fn digit_str(d: u64) -> (r: &'static str)
    requires
        d < 10,
    ensures
        r@ == seq![dec_digit(d as nat)],
{
    proof {
        reveal_strlit("0");
        reveal_strlit("1");
        reveal_strlit("2");
        reveal_strlit("3");
        reveal_strlit("4");
        reveal_strlit("5");
        reveal_strlit("6");
        reveal_strlit("7");
        reveal_strlit("8");
        reveal_strlit("9");
    }
    let r = match d {
        0 => "0",
        1 => "1",
        2 => "2",
        3 => "3",
        4 => "4",
        5 => "5",
        6 => "6",
        7 => "7",
        8 => "8",
        _ => "9",
    };
    proof {
        assert(r@ =~= seq![dec_digit(d as nat)]);
    }
    r
}

/// Renders `n` in decimal.
pub fn u64_dec(n: u64) -> (r: String)
    ensures
        r@ == dec_str(n as nat),
    decreases n,
{
    if n < 10 {
        String::from_str(digit_str(n))
    } else {
        let mut s = u64_dec(n / 10);
        s.append(digit_str(n % 10));
        s
    }
}

/// Renders an index in decimal.
pub fn usize_dec(n: usize) -> (r: String)
    ensures
        r@ == dec_str(n as nat),
{
    u64_dec(n as u64)
}

/// One reported line of a file search: the file name, the line index and
/// the (possibly highlighted) line content.
pub fn file_match_line(filename: &str, idx: usize, content: &str) -> (r: String)
    ensures
        r@ == filename@ + ":"@ + dec_str(idx as nat) + ": "@ + content@,
{
    let mut s = filename.to_owned();
    s.append(":");
    let num = usize_dec(idx);
    s.append(num.as_str());
    s.append(": ");
    s.append(content);
    s
}

/// Whether the search reports `line`: the query occurs in its searched
/// form and the match span falls inside the line itself.
pub open spec fn line_reported(line: Seq<char>, query: Seq<char>, case_sensitive: bool) -> bool {
    match line_match_start(line, query, case_sensitive) {
        Some(st) => st + query.len() <= line.len(),
        None => false,
    }
}

/// What every report line starts with: the file name, the line index and
/// the separators.
pub open spec fn report_prefix(filename: Seq<char>, i: int) -> Seq<char> {
    filename + ":"@ + dec_str(i as nat) + ": "@
}

/// The shape of one report of line `i`: the prefix, then the line with its
/// first match highlighted.
pub open spec fn is_file_report(
    out: Seq<char>,
    filename: Seq<char>,
    i: int,
    line: Seq<char>,
    query: Seq<char>,
    case_sensitive: bool,
) -> bool {
    let pre = report_prefix(filename, i);
    &&& out.len() >= pre.len()
    &&& out.take(pre.len() as int) == pre
    &&& (esc_free(line) ==> (line_match_start(line, query, case_sensitive) matches Some(st)
        && is_highlighted(out.skip(pre.len() as int), line, st, st + query.len())))
}

/// `r` reports exactly the lines among `lines[0 .. i]` on which the query
/// occurs, in line order.
pub open spec fn file_report_upto(
    r: Seq<Seq<char>>,
    lines: Seq<Seq<char>>,
    i: int,
    filename: Seq<char>,
    query: Seq<char>,
    case_sensitive: bool,
) -> bool
    decreases i,
{
    if i <= 0 {
        r.len() == 0
    } else if line_reported(lines[i - 1], query, case_sensitive) {
        &&& r.len() >= 1
        &&& is_file_report(r.last(), filename, i - 1, lines[i - 1], query, case_sensitive)
        &&& file_report_upto(r.drop_last(), lines, i - 1, filename, query, case_sensitive)
    } else {
        file_report_upto(r, lines, i - 1, filename, query, case_sensitive)
    }
}

/// The reports of a file search: one line for each line of the file on
/// which the query occurs, in line order, each carrying the file name, the
/// line index, and the line with its first match highlighted.
pub fn find_in_lines(
    filename: &str,
    lines: &Vec<String>,
    query: &str,
    case_sensitive: bool,
) -> (r: Vec<String>)
    ensures
        file_report_upto(
            views(r@),
            views(lines@),
            lines@.len() as int,
            filename@,
            query@,
            case_sensitive,
        ),
{
    let mut out: Vec<String> = Vec::new();
    let mut i: usize = 0;
    while i < lines.len()
        invariant
            i <= lines@.len(),
            file_report_upto(
                views(out@),
                views(lines@),
                i as int,
                filename@,
                query@,
                case_sensitive,
            ),
        decreases lines@.len() - i,
    {
        let ghost prev = views(out@);
        match check_and_colorize_match(lines[i].as_str(), query, case_sensitive) {
            Some(content) => {
                let report = file_match_line(filename, i, content.as_str());
                proof {
                    let line = views(lines@)[i as int];
                    assert(line == lines@[i as int]@);
                    assert(line_reported(line, query@, case_sensitive));
                    let pre = report_prefix(filename@, i as int);
                    assert(report@.take(pre.len() as int) =~= pre);
                    assert(report@.skip(pre.len() as int) =~= content@);
                    assert(is_file_report(
                        report@,
                        filename@,
                        i as int,
                        line,
                        query@,
                        case_sensitive,
                    ));
                }
                out.push(report);
                proof {
                    assert(views(out@).drop_last() =~~= prev);
                    assert(views(out@).last() == report@);
                }
            },
            None => {
                proof {
                    assert(!line_reported(views(lines@)[i as int], query@, case_sensitive));
                }
            },
        }
        i += 1;
    }
    out
}

/// What the search does with its starting point, by the shape the file
/// system reports.
#[derive(Clone, Copy, Debug, PartialEq, Eq, Structural)]
pub enum FindAction {
    /// Resolve the link and look again.
    FollowLink,
    /// Search the directory tree.
    SearchDirectory,
    /// Search within the file.
    SearchFile,
    /// Neither a file nor a directory: report the error.
    Unsupported,
}

/// The step decision of the search entry point: follow symlinks until the
/// target is plain, then search a directory as a tree and a file by lines;
/// anything else is unsupported.
pub fn find_step(is_symlink: bool, is_dir: bool, is_file: bool) -> (r: FindAction)
    ensures
        r == (if is_symlink {
            FindAction::FollowLink
        } else if is_dir {
            FindAction::SearchDirectory
        } else if is_file {
            FindAction::SearchFile
        } else {
            FindAction::Unsupported
        }),
{
    if is_symlink {
        FindAction::FollowLink
    } else if is_dir {
        FindAction::SearchDirectory
    } else if is_file {
        FindAction::SearchFile
    } else {
        FindAction::Unsupported
    }
}

} // verus!
