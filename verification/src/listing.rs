//! The text pieces of a long directory listing: the mode column, link
//! counts, human-readable sizes, the hidden-file filter, and the aligned
//! assembly of whole listing lines.

use vstd::prelude::*;
use vstd::string::StrSliceExecFns;
use vstd::string::StringExecFns;

use crate::layout::max_entry_len;
use crate::layout::max_len_of;
use crate::layout::views;
use crate::textutil::joined_lines;
use crate::textutil::join_lines;
use crate::textutil::pad_left;
use crate::textutil::pad_left_spec;
use crate::textutil::pad_right;
use crate::textutil::pad_right_spec;

verus! {

/// The permission character for one mode bit: the letter when the bit is
/// set, a dash otherwise.
pub open spec fn perm_char(mode: u32, bit: u32, letter: char) -> char {
    if mode & bit == bit {
        letter
    } else {
        '-'
    }
}

/// The ten-character mode column of a long listing: directory flag, then
/// read, write and execute for owner, group and others.
pub open spec fn mode_chars(mode: u32, is_dir: bool) -> Seq<char> {
    seq![
        if is_dir {
            'd'
        } else {
            '-'
        },
        perm_char(mode, 0o400, 'r'),
        perm_char(mode, 0o200, 'w'),
        perm_char(mode, 0o100, 'x'),
        perm_char(mode, 0o040, 'r'),
        perm_char(mode, 0o020, 'w'),
        perm_char(mode, 0o010, 'x'),
        perm_char(mode, 0o004, 'r'),
        perm_char(mode, 0o002, 'w'),
        perm_char(mode, 0o001, 'x'),
    ]
}

/// Appends the permission character for one mode bit: the letter when the
/// bit is set, a dash otherwise.
fn push_perm(s: &mut String, mode: u32, bit: u32, letter: &str)
    requires
        letter@.len() == 1,
    ensures
        final(s)@ == old(s)@ + seq![perm_char(mode, bit, letter@[0])],
{
    if mode & bit == bit {
        s.append(letter);
        proof {
            assert(letter@ =~= seq![letter@[0]]);
        }
    } else {
        s.append("-");
        proof {
            reveal_strlit("-");
            assert("-"@ =~= seq![perm_char(mode, bit, letter@[0])]);
        }
    }
}

/// Renders the mode column.
pub fn mode_string(mode: u32, is_dir: bool) -> (r: String)
    ensures
        r@ == mode_chars(mode, is_dir),
{
    proof {
        reveal_strlit("d");
        reveal_strlit("-");
        reveal_strlit("r");
        reveal_strlit("w");
        reveal_strlit("x");
    }
    let mut s = String::new();
    if is_dir {
        s.append("d");
    } else {
        s.append("-");
    }
    push_perm(&mut s, mode, 0o400, "r");
    push_perm(&mut s, mode, 0o200, "w");
    push_perm(&mut s, mode, 0o100, "x");
    push_perm(&mut s, mode, 0o040, "r");
    push_perm(&mut s, mode, 0o020, "w");
    push_perm(&mut s, mode, 0o010, "x");
    push_perm(&mut s, mode, 0o004, "r");
    push_perm(&mut s, mode, 0o002, "w");
    push_perm(&mut s, mode, 0o001, "x");
    proof {
        assert(s@ =~= mode_chars(mode, is_dir));
    }
    s
}

/// Powers of 1024.
pub open spec fn pow1024(m: nat) -> nat
    decreases m,
{
    if m == 0 {
        1
    } else {
        1024 * pow1024((m - 1) as nat)
    }
}

/// The magnitude of a byte count: the exponent of the largest power of 1024
/// that fits in it, as the human-readable size column uses it.
pub fn size_magnitude(bytes: u64) -> (m: u32)
    requires
        bytes >= 1,
    ensures
        pow1024(m as nat) <= bytes < pow1024((m + 1) as nat),
        m <= 6,
{
    let mut v = bytes;
    let mut m: u32 = 0;
    proof {
        assert(pow1024(0) == 1);
    }
    while v >= 1024
        invariant
            1 <= v,
            bytes >= 1,
            m <= 6,
            pow1024(m as nat) * v <= bytes,
            bytes < pow1024(m as nat) * (v + 1),
        decreases v,
    {
        let q = v / 1024;
        proof {
            lemma_pow1024_pos(m as nat);
            let p = pow1024(m as nat) as int;
            let qq = q as int;
            let vv = v as int;
            assert(pow1024((m + 1) as nat) == 1024 * pow1024(m as nat));
            assert(1024 * qq <= vv < 1024 * (qq + 1));
            assert((1024 * p) * qq <= p * vv && p * (vv + 1) <= (1024 * p) * (qq + 1))
                by (nonlinear_arith)
                requires
                    p >= 1,
                    1024 * qq <= vv,
                    vv < 1024 * (qq + 1),
            ;
            if m == 6 {
                assert(pow1024(0) == 1);
                assert(pow1024(1) == 1024);
                assert(pow1024(2) == 0x100000);
                assert(pow1024(3) == 0x40000000);
                assert(pow1024(4) == 0x10000000000);
                assert(pow1024(5) == 0x4000000000000);
                assert(pow1024(6) == 0x1000000000000000);
                assert((1024 * p) * qq >= 1024 * p) by (nonlinear_arith)
                    requires
                        p >= 1,
                        qq >= 1,
                ;
                assert(false);
            }
        }
        v = q;
        m = m + 1;
    }
    proof {
        let p = pow1024(m as nat) as int;
        let vv = v as int;
        lemma_pow1024_pos(m as nat);
        assert(p <= p * vv && p * (vv + 1) <= p * 1024) by (nonlinear_arith)
            requires
                p >= 1,
                1 <= vv < 1024,
        ;
        assert(pow1024((m + 1) as nat) == 1024 * pow1024(m as nat));
    }
    m
}

/// Powers of 1024 are positive.
pub proof fn lemma_pow1024_pos(m: nat)
    ensures
        pow1024(m) >= 1,
    decreases m,
{
    if m > 0 {
        lemma_pow1024_pos((m - 1) as nat);
        assert(1024 * pow1024((m - 1) as nat) >= pow1024((m - 1) as nat)) by (nonlinear_arith)
            requires
                pow1024((m - 1) as nat) >= 1,
        ;
    }
}

/// The suffix letter of each size magnitude.
pub open spec fn size_suffix_spec(m: nat) -> Seq<char> {
    if m == 1 {
        "K"@
    } else if m == 2 {
        "M"@
    } else if m == 3 {
        "G"@
    } else if m == 4 {
        "T"@
    } else if m == 5 {
        "P"@
    } else {
        ""@
    }
}

/// The suffix letter for a size magnitude; bytes themselves get none.
pub fn size_suffix(m: u32) -> (r: &'static str)
    requires
        m <= 5,
    ensures
        r@ == size_suffix_spec(m as nat),
{
    match m {
        1 => "K",
        2 => "M",
        3 => "G",
        4 => "T",
        5 => "P",
        _ => "",
    }
}

/// Whether a name is hidden: it starts with a dot.
pub open spec fn is_hidden(name: Seq<char>) -> bool {
    name.len() > 0 && name[0] == '.'
}

/// Decides whether a name is hidden, for the listing's filter.
pub fn name_is_hidden(name: &str) -> (r: bool)
    ensures
        r == is_hidden(name@),
{
    name.unicode_len() > 0 && name.get_char(0) == '.'
}

/// The names a listing shows: all of them with `show_all`, otherwise only
/// those not starting with a dot.
pub open spec fn visible_names(names: Seq<Seq<char>>, show_all: bool) -> Seq<Seq<char>> {
    if show_all {
        names
    } else {
        names.filter(|n: Seq<char>| !is_hidden(n))
    }
}

/// Keeps the names a listing shows, in order.
pub fn filter_hidden(names: &Vec<String>, show_all: bool) -> (r: Vec<String>)
    ensures
        views(r@) == visible_names(views(names@), show_all),
{
    let ghost nv = views(names@);
    let mut r: Vec<String> = Vec::new();
    let mut i: usize = 0;
    while i < names.len()
        invariant
            i <= nv.len(),
            nv == views(names@),
            views(r@) == visible_names(nv.take(i as int), show_all),
        decreases nv.len() - i,
    {
        let name = &names[i];
        let keep = if show_all {
            true
        } else {
            !(name.unicode_len() > 0 && name.as_str().get_char(0) == '.')
        };
        proof {
            assert(nv[i as int] == name@);
            assert(keep == (show_all || !is_hidden(nv[i as int])));
        }
        if keep {
            r.push(name.clone());
        }
        proof {
            reveal(Seq::filter);
            assert(nv.take(i + 1).drop_last() =~= nv.take(i as int));
            assert(nv.take(i + 1).last() == nv[i as int]);
            assert(views(r@) =~~= visible_names(nv.take(i + 1), show_all));
        }
        i += 1;
    }
    proof {
        assert(nv.take(nv.len() as int) =~= nv);
    }
    r
}

/// One aligned line of the long listing: the mode column, then the link
/// count right-aligned, owner and group left-aligned, the size
/// right-aligned, the modification time and the name, separated by single
/// spaces.
pub open spec fn listing_line(
    mode: Seq<char>,
    nlink: Seq<char>,
    owner: Seq<char>,
    group: Seq<char>,
    size: Seq<char>,
    time: Seq<char>,
    name: Seq<char>,
    wn: nat,
    wo: nat,
    wg: nat,
    ws: nat,
) -> Seq<char> {
    pad_right_spec(mode, 10) + " "@ + pad_left_spec(nlink, wn) + " "@ + pad_right_spec(owner, wo)
        + " "@ + pad_right_spec(group, wg) + " "@ + pad_left_spec(size, ws) + " "@ + time + " "@
        + name
}

/// The whole long listing: one line per entry, all aligned to the widest
/// link count, owner, group and size, joined by newlines.
pub open spec fn long_listing(
    modes: Seq<Seq<char>>,
    nlinks: Seq<Seq<char>>,
    owners: Seq<Seq<char>>,
    groups: Seq<Seq<char>>,
    sizes: Seq<Seq<char>>,
    times: Seq<Seq<char>>,
    names: Seq<Seq<char>>,
) -> Seq<char> {
    let wn = max_entry_len(nlinks);
    let wo = max_entry_len(owners);
    let wg = max_entry_len(groups);
    let ws = max_entry_len(sizes);
    joined_lines(
        Seq::new(
            names.len(),
            |i: int|
                listing_line(
                    modes[i],
                    nlinks[i],
                    owners[i],
                    groups[i],
                    sizes[i],
                    times[i],
                    names[i],
                    wn,
                    wo,
                    wg,
                    ws,
                ),
        ),
    )
}

/// Renders the long listing from its columns, one entry per index.
pub fn format_long_listing(
    modes: &Vec<String>,
    nlinks: &Vec<String>,
    owners: &Vec<String>,
    groups: &Vec<String>,
    sizes: &Vec<String>,
    times: &Vec<String>,
    names: &Vec<String>,
) -> (r: String)
    requires
        modes@.len() == names@.len(),
        nlinks@.len() == names@.len(),
        owners@.len() == names@.len(),
        groups@.len() == names@.len(),
        sizes@.len() == names@.len(),
        times@.len() == names@.len(),
    ensures
        r@ == long_listing(
            views(modes@),
            views(nlinks@),
            views(owners@),
            views(groups@),
            views(sizes@),
            views(times@),
            views(names@),
        ),
{
    let wn = max_len_of(nlinks);
    let wo = max_len_of(owners);
    let wg = max_len_of(groups);
    let ws = max_len_of(sizes);
    let mut lines: Vec<String> = Vec::new();
    let mut i: usize = 0;
    while i < names.len()
        invariant
            i <= names@.len(),
            modes@.len() == names@.len(),
            nlinks@.len() == names@.len(),
            owners@.len() == names@.len(),
            groups@.len() == names@.len(),
            sizes@.len() == names@.len(),
            times@.len() == names@.len(),
            wn == max_entry_len(views(nlinks@)),
            wo == max_entry_len(views(owners@)),
            wg == max_entry_len(views(groups@)),
            ws == max_entry_len(views(sizes@)),
            lines@.len() == i,
            forall|j: int|
                0 <= j < i ==> #[trigger] lines@[j]@ == listing_line(
                    views(modes@)[j],
                    views(nlinks@)[j],
                    views(owners@)[j],
                    views(groups@)[j],
                    views(sizes@)[j],
                    views(times@)[j],
                    views(names@)[j],
                    wn as nat,
                    wo as nat,
                    wg as nat,
                    ws as nat,
                ),
        decreases names@.len() - i,
    {
        proof {
            reveal_strlit(" ");
        }
        let mut line = pad_right(modes[i].as_str(), 10);
        line.append(" ");
        let piece = pad_left(nlinks[i].as_str(), wn);
        line.append(piece.as_str());
        line.append(" ");
        let piece = pad_right(owners[i].as_str(), wo);
        line.append(piece.as_str());
        line.append(" ");
        let piece = pad_right(groups[i].as_str(), wg);
        line.append(piece.as_str());
        line.append(" ");
        let piece = pad_left(sizes[i].as_str(), ws);
        line.append(piece.as_str());
        line.append(" ");
        line.append(times[i].as_str());
        line.append(" ");
        line.append(names[i].as_str());
        proof {
            assert(line@ =~= listing_line(
                views(modes@)[i as int],
                views(nlinks@)[i as int],
                views(owners@)[i as int],
                views(groups@)[i as int],
                views(sizes@)[i as int],
                views(times@)[i as int],
                views(names@)[i as int],
                wn as nat,
                wo as nat,
                wg as nat,
                ws as nat,
            ));
        }
        lines.push(line);
        i += 1;
    }
    let out = join_lines(&lines);
    proof {
        assert(views(lines@) =~~= Seq::new(
            views(names@).len(),
            |j: int|
                listing_line(
                    views(modes@)[j],
                    views(nlinks@)[j],
                    views(owners@)[j],
                    views(groups@)[j],
                    views(sizes@)[j],
                    views(times@)[j],
                    views(names@)[j],
                    wn as nat,
                    wo as nat,
                    wg as nat,
                    ws as nat,
                ),
        ));
    }
    out
}

} // verus!
