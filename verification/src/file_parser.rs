use vstd::prelude::*;

use vstd::string::StrSliceExecFns;

verus! {

/// A character trimmed at a line's ends: space, tab, or carriage return.
pub open spec fn is_blank_char(c: char) -> bool {
    c == ' ' || c == '\t' || c == '\r'
}

/// Splits a char text into lines at newlines, the chars read so far of the
/// current line carried in `cur`.
pub open spec fn split_acc_chars(cur: Seq<char>, s: Seq<char>) -> Seq<Seq<char>>
    decreases s.len(),
{
    if s.len() == 0 {
        seq![cur]
    } else if s[0] == '\n' {
        seq![cur] + split_acc_chars(Seq::empty(), s.drop_first())
    } else {
        split_acc_chars(cur.push(s[0]), s.drop_first())
    }
}

/// The lines of a char text.
pub open spec fn spec_lines_chars(s: Seq<char>) -> Seq<Seq<char>> {
    split_acc_chars(Seq::empty(), s)
}

pub open spec fn trim_front_chars(s: Seq<char>) -> Seq<char>
    decreases s.len(),
{
    if s.len() > 0 && is_blank_char(s.first()) {
        trim_front_chars(s.drop_first())
    } else {
        s
    }
}

pub open spec fn trim_back_chars(s: Seq<char>) -> Seq<char>
    decreases s.len(),
{
    if s.len() > 0 && is_blank_char(s.last()) {
        trim_back_chars(s.drop_last())
    } else {
        s
    }
}

/// A line with its leading and trailing blanks removed.
pub open spec fn spec_trim_chars(s: Seq<char>) -> Seq<char> {
    trim_back_chars(trim_front_chars(s))
}

/// The trimmed lines that carry data: blank lines and `#` comment lines
/// are dropped, the rest keep their order.
pub open spec fn spec_hex_filter(lines: Seq<Seq<char>>) -> Seq<Seq<char>>
    decreases lines.len(),
{
    if lines.len() == 0 {
        Seq::empty()
    } else {
        let rest = spec_hex_filter(lines.drop_last());
        let t = spec_trim_chars(lines.last());
        if t.len() > 0 && t[0] != '#' {
            rest.push(t)
        } else {
            rest
        }
    }
}

/// The data lines a hex text file yields.
pub open spec fn spec_hex_lines(s: Seq<char>) -> Seq<Seq<char>> {
    spec_hex_filter(spec_lines_chars(s))
}

fn blank_char(c: char) -> (r: bool)
    ensures
        r == is_blank_char(c),
{
    c == ' ' || c == '\t' || c == '\r'
}

fn line_bounds(text: &str) -> (r: Vec<(usize, usize)>)
    ensures
        r@.map_values(|b: (usize, usize)| text@.subrange(b.0 as int, b.1 as int))
            == spec_lines_chars(text@),
        forall|k: int| 0 <= k < r@.len() ==> ((#[trigger] r@[k]).0 <= r@[k].1 <= text@.len()),
{
    let n = text.unicode_len();
    let mut bounds: Vec<(usize, usize)> = Vec::new();
    let mut ls: usize = 0;
    let mut i: usize = 0;
    let ghost f = |b: (usize, usize)| text@.subrange(b.0 as int, b.1 as int);
    proof {
        assert(text@.skip(0) =~= text@);
        assert(text@.subrange(0, 0) =~= Seq::<char>::empty());
        assert(bounds@.map_values(f) =~= Seq::<Seq<char>>::empty());
        assert(Seq::<Seq<char>>::empty() + split_acc_chars(Seq::empty(), text@) =~= split_acc_chars(
            Seq::empty(),
            text@,
        ));
    }
    while i < n
        invariant
            n == text@.len(),
            ls <= i <= n,
            f == (|b: (usize, usize)| text@.subrange(b.0 as int, b.1 as int)),
            forall|k: int| 0 <= k < bounds@.len() ==> ((#[trigger] bounds@[k]).0 <= bounds@[k].1
                <= text@.len()),
            spec_lines_chars(text@) == bounds@.map_values(f) + split_acc_chars(
                text@.subrange(ls as int, i as int),
                text@.skip(i as int),
            ),
        decreases n - i,
    {
        let ghost pre_bounds = bounds@;
        proof {
            assert(text@.skip(i as int).drop_first() =~= text@.skip(i as int + 1));
            assert(text@.skip(i as int)[0] == text@[i as int]);
        }
        let c = text.get_char(i);
        if c == '\n' {
            bounds.push((ls, i));
            proof {
                assert(bounds@.map_values(f) =~= pre_bounds.map_values(f).push(
                    text@.subrange(ls as int, i as int),
                ));
                assert(pre_bounds.map_values(f) + (seq![text@.subrange(ls as int, i as int)]
                    + split_acc_chars(Seq::empty(), text@.skip(i as int + 1))) =~= (
                pre_bounds.map_values(f).push(text@.subrange(ls as int, i as int)))
                    + split_acc_chars(Seq::empty(), text@.skip(i as int + 1)));
                assert(text@.subrange(i as int + 1, i as int + 1) =~= Seq::<char>::empty());
            }
            ls = i + 1;
        } else {
            proof {
                assert(text@.subrange(ls as int, i as int).push(text@[i as int]) =~= text@.subrange(
                    ls as int,
                    i as int + 1,
                ));
            }
        }
        i = i + 1;
    }
    assert(text@.skip(n as int).len() == 0);
    let ghost pre_bounds = bounds@;
    bounds.push((ls, n));
    proof {
        assert(bounds@.map_values(f) =~= pre_bounds.map_values(f).push(
            text@.subrange(ls as int, n as int),
        ));
        assert(pre_bounds.map_values(f) + seq![text@.subrange(ls as int, n as int)]
            =~= pre_bounds.map_values(f).push(text@.subrange(ls as int, n as int)));
    }
    bounds
}

fn trim_bounds(text: &str, a: usize, b: usize) -> (r: (usize, usize))
    requires
        a <= b <= text@.len(),
    ensures
        a <= r.0 <= r.1 <= b,
        text@.subrange(r.0 as int, r.1 as int) == spec_trim_chars(
            text@.subrange(a as int, b as int),
        ),
{
    let mut ts: usize = a;
    while ts < b && blank_char(text.get_char(ts))
        invariant
            a <= ts <= b <= text@.len(),
            trim_front_chars(text@.subrange(a as int, b as int)) == trim_front_chars(
                text@.subrange(ts as int, b as int),
            ),
        decreases b - ts,
    {
        proof {
            assert(text@.subrange(ts as int, b as int).drop_first() =~= text@.subrange(
                ts as int + 1,
                b as int,
            ));
            assert(text@.subrange(ts as int, b as int)[0] == text@[ts as int]);
        }
        ts = ts + 1;
    }
    proof {
        if ts < b {
            assert(text@.subrange(ts as int, b as int)[0] == text@[ts as int]);
        }
        assert(trim_front_chars(text@.subrange(a as int, b as int)) == text@.subrange(
            ts as int,
            b as int,
        ));
    }
    let mut te: usize = b;
    while te > ts && blank_char(text.get_char(te - 1))
        invariant
            a <= ts <= te <= b <= text@.len(),
            spec_trim_chars(text@.subrange(a as int, b as int)) == trim_back_chars(
                text@.subrange(ts as int, te as int),
            ),
        decreases te,
    {
        proof {
            let sub = text@.subrange(ts as int, te as int);
            assert(sub.last() == text@[te - 1]);
            assert(sub.drop_last() =~= text@.subrange(ts as int, te as int - 1));
        }
        te = te - 1;
    }
    proof {
        let sub = text@.subrange(ts as int, te as int);
        if te > ts {
            assert(sub.last() == text@[te - 1]);
        }
        assert(spec_trim_chars(text@.subrange(a as int, b as int)) == sub);
    }
    (ts, te)
}

/// The data lines of a hex text file: every line is trimmed, blank lines
/// and lines starting with `#` are dropped, and the rest are kept in
/// order.
pub fn read_hex_data_from_text(text: &str) -> (r: Vec<String>)
    ensures
        r@.map_values(|x: String| x@) == spec_hex_lines(text@),
{
    let bounds = line_bounds(text);
    let ghost f = |b: (usize, usize)| text@.subrange(b.0 as int, b.1 as int);
    let ghost line_views = bounds@.map_values(f);
    let mut out: Vec<String> = Vec::new();
    let m = bounds.len();
    let mut k: usize = 0;
    proof {
        assert(line_views.take(0) =~= Seq::<Seq<char>>::empty());
        assert(out@.map_values(|x: String| x@) =~= Seq::<Seq<char>>::empty());
    }
    while k < m
        invariant
            m == bounds@.len(),
            k <= m,
            f == (|b: (usize, usize)| text@.subrange(b.0 as int, b.1 as int)),
            line_views == bounds@.map_values(f),
            line_views == spec_lines_chars(text@),
            forall|j: int| 0 <= j < bounds@.len() ==> ((#[trigger] bounds@[j]).0 <= bounds@[j].1
                <= text@.len()),
            out@.map_values(|x: String| x@) == spec_hex_filter(line_views.take(k as int)),
        decreases m - k,
    {
        let ghost pre_out = out@;
        proof {
            assert(line_views.take(k as int + 1).drop_last() =~= line_views.take(k as int));
            assert(line_views.take(k as int + 1).last() == line_views[k as int]);
            assert(line_views[k as int] == f(bounds@[k as int]));
        }
        let bnd = bounds[k];
        let trimmed = trim_bounds(text, bnd.0, bnd.1);
        let ts = trimmed.0;
        let te = trimmed.1;
        if ts < te && text.get_char(ts) != '#' {
            proof {
                assert(text@.subrange(ts as int, te as int)[0] == text@[ts as int]);
            }
            out.push(text.substring_char(ts, te).to_owned());
            proof {
                assert(out@.map_values(|x: String| x@) =~= pre_out.map_values(|x: String| x@).push(
                    text@.subrange(ts as int, te as int),
                ));
            }
        } else {
            proof {
                let t = spec_trim_chars(line_views[k as int]);
                assert(t == text@.subrange(ts as int, te as int));
                if ts >= te {
                    assert(t.len() == 0);
                } else {
                    assert(t[0] == '#');
                }
            }
        }
        k = k + 1;
    }
    assert(line_views.take(m as int) =~= line_views);
    out
}

} // verus!
