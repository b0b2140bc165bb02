//! Character-level scanning used by the request parser: splitting text into
//! lines, a line into whitespace-separated tokens, and a header line at its
//! first `": "`.
use vstd::prelude::*;

verus! {

/// The characters with the Unicode `White_Space` property, the set that
/// `char::is_whitespace` tests.
pub open spec fn is_white_space(c: char) -> bool {
    let u = c as u32;
    (9 <= u && u <= 13) || u == 32 || u == 0x85 || u == 0xa0 || u == 0x1680 || (0x2000 <= u
        && u <= 0x200a) || u == 0x2028 || u == 0x2029 || u == 0x202f || u == 0x205f || u == 0x3000
}

/// A line without the `'\r'` that ends it, if any.
pub open spec fn strip_cr(line: Seq<char>) -> Seq<char> {
    if line.len() > 0 && line.last() == '\r' {
        line.drop_last()
    } else {
        line
    }
}

/// The lines of `s`, where `cur` is the part of the current line already
/// read: a line ends at `'\n'`, and loses one `'\r'` just before it; the
/// last line need not end with `'\n'`, and an empty tail makes no line.
pub open spec fn lines_from(s: Seq<char>, cur: Seq<char>) -> Seq<Seq<char>>
    decreases s.len(),
{
    if s.len() == 0 {
        if cur.len() == 0 {
            Seq::empty()
        } else {
            seq![cur]
        }
    } else if s[0] == '\n' {
        seq![strip_cr(cur)] + lines_from(s.drop_first(), Seq::empty())
    } else {
        lines_from(s.drop_first(), cur.push(s[0]))
    }
}

/// The lines of a text, as `str::lines` gives them.
pub open spec fn lines_of(s: Seq<char>) -> Seq<Seq<char>> {
    lines_from(s, Seq::empty())
}

/// The maximal runs of non-whitespace characters of `s`, where `cur` is the
/// part of the current run already read.
pub open spec fn tokens_from(s: Seq<char>, cur: Seq<char>) -> Seq<Seq<char>>
    decreases s.len(),
{
    if s.len() == 0 {
        if cur.len() == 0 {
            Seq::empty()
        } else {
            seq![cur]
        }
    } else if is_white_space(s[0]) {
        if cur.len() == 0 {
            tokens_from(s.drop_first(), Seq::empty())
        } else {
            seq![cur] + tokens_from(s.drop_first(), Seq::empty())
        }
    } else {
        tokens_from(s.drop_first(), cur.push(s[0]))
    }
}

/// The whitespace-separated tokens of a line, as `str::split_whitespace`
/// gives them.
pub open spec fn tokens_of(s: Seq<char>) -> Seq<Seq<char>> {
    tokens_from(s, Seq::empty())
}

/// `s` holds the separator `": "` at position `i`.
pub open spec fn separator_at(s: Seq<char>, i: int) -> bool {
    0 <= i && i + 1 < s.len() && s[i] == ':' && s[i + 1] == ' '
}

/// `i` is the first position of the separator `": "` in `s`.
pub open spec fn first_separator_at(s: Seq<char>, i: int) -> bool {
    separator_at(s, i) && forall|j: int| 0 <= j < i ==> !separator_at(s, j)
}

/// `s` split at its first `": "`, as `str::split_once(": ")` splits it.
pub open spec fn split_header(s: Seq<char>) -> Option<(Seq<char>, Seq<char>)> {
    if exists|i: int| first_separator_at(s, i) {
        let i = choose|i: int| first_separator_at(s, i);
        Some((s.take(i), s.skip(i + 2)))
    } else {
        None
    }
}

/// There is at most one first separator.
pub proof fn lemma_first_separator_unique(s: Seq<char>, i: int, j: int)
    requires
        first_separator_at(s, i),
        first_separator_at(s, j),
    ensures
        i == j,
{
    if i < j {
        assert(!separator_at(s, i));
    } else if j < i {
        assert(!separator_at(s, j));
    }
}

/// The split of `s` when its first separator stands at `i`.
pub proof fn lemma_split_header_at(s: Seq<char>, i: int)
    requires
        first_separator_at(s, i),
    ensures
        split_header(s) == Some((s.take(i), s.skip(i + 2))),
{
    let k = choose|k: int| first_separator_at(s, k);
    lemma_first_separator_unique(s, i, k);
}

/// Whether `c` is whitespace in the sense of `is_white_space`.
pub fn is_white_space_char(c: char) -> (r: bool)
    ensures
        r == is_white_space(c),
{
    let u = c as u32;
    (9 <= u && u <= 13) || u == 32 || u == 0x85 || u == 0xa0 || u == 0x1680 || (0x2000 <= u
        && u <= 0x200a) || u == 0x2028 || u == 0x2029 || u == 0x202f || u == 0x205f || u == 0x3000
}

/// The characters of `s`, in order.
pub fn chars_of(s: &str) -> (r: Vec<char>)
    ensures
        r@ == s@,
{
    let mut out: Vec<char> = Vec::new();
    for c in it: s.chars()
        invariant
            out@ == it.seq().take(it.index() as int),
    {
        out.push(c);
    }
    out
}

/// The spans `(start, end)` of the lines of `cs`, in order.
pub fn line_spans(cs: &Vec<char>) -> (r: Vec<(usize, usize)>)
    ensures
        r.len() == lines_of(cs@).len(),
        forall|k: int| 0 <= k < r.len() ==> #[trigger] r[k].0 <= r[k].1 <= cs.len(),
        forall|k: int|
            0 <= k < r.len() ==> #[trigger] lines_of(cs@)[k] == cs@.subrange(
                r[k].0 as int,
                r[k].1 as int,
            ),
{
    let n = cs.len();
    let mut out: Vec<(usize, usize)> = Vec::new();
    let ghost mut done: Seq<Seq<char>> = Seq::empty();
    let mut start: usize = 0;
    let mut i: usize = 0;
    assert(cs@.skip(0) =~= cs@);
    assert(cs@.subrange(0, 0) =~= Seq::<char>::empty());
    while i < n
        invariant
            n == cs.len(),
            start <= i <= n,
            lines_of(cs@) == done + lines_from(cs@.skip(i as int), cs@.subrange(
                start as int,
                i as int,
            )),
            out.len() == done.len(),
            forall|k: int| 0 <= k < out.len() ==> #[trigger] out[k].0 <= out[k].1 <= n,
            forall|k: int|
                0 <= k < out.len() ==> #[trigger] done[k] == cs@.subrange(
                    out[k].0 as int,
                    out[k].1 as int,
                ),
        decreases n - i,
    {
        let ghost rest = cs@.skip(i as int);
        let ghost cur = cs@.subrange(start as int, i as int);
        assert(rest[0] == cs[i as int]);
        assert(rest.drop_first() =~= cs@.skip(i + 1));
        if cs[i] == '\n' {
            let mut end = i;
            if end > start && cs[end - 1] == '\r' {
                end = end - 1;
                assert(cur.drop_last() =~= cs@.subrange(start as int, end as int));
            }
            assert(strip_cr(cur) == cs@.subrange(start as int, end as int));
            let ghost old_out = out@;
            out.push((start, end));
            proof {
                let old_done = done;
                done = done.push(strip_cr(cur));
                assert forall|k: int| 0 <= k < out.len() implies out[k].0 <= out[k].1 <= n
                    && #[trigger] done[k] == cs@.subrange(out[k].0 as int, out[k].1 as int) by {
                    if k < old_out.len() {
                        assert(out[k] == old_out[k]);
                        assert(done[k] == old_done[k]);
                    }
                }
                assert(cs@.subrange(i + 1, i + 1) =~= Seq::<char>::empty());
                assert(lines_of(cs@) =~= done + lines_from(cs@.skip(i + 1), Seq::empty()));
            }
            start = i + 1;
        } else {
            assert(cur.push(cs[i as int]) =~= cs@.subrange(start as int, i + 1));
        }
        i = i + 1;
    }
    let ghost cur = cs@.subrange(start as int, n as int);
    assert(cs@.skip(n as int).len() == 0);
    if start < n {
        let ghost old_out = out@;
        out.push((start, n));
        proof {
            let old_done = done;
            done = done.push(cur);
            assert forall|k: int| 0 <= k < out.len() implies out[k].0 <= out[k].1 <= n
                && #[trigger] done[k] == cs@.subrange(out[k].0 as int, out[k].1 as int) by {
                if k < old_out.len() {
                    assert(out[k] == old_out[k]);
                    assert(done[k] == old_done[k]);
                }
            }
        }
    }
    assert(lines_of(cs@) =~= done);
    assert forall|k: int| 0 <= k < out.len() implies out[k].0 <= out[k].1 <= cs.len()
        && #[trigger] lines_of(cs@)[k] == cs@.subrange(out[k].0 as int, out[k].1 as int) by {
        assert(done[k] == cs@.subrange(out[k].0 as int, out[k].1 as int));
    }
    out
}

/// The spans `(start, end)` of the whitespace-separated tokens of
/// `cs[from..to]`, in order.
pub fn token_spans(cs: &Vec<char>, from: usize, to: usize) -> (r: Vec<(usize, usize)>)
    requires
        from <= to <= cs.len(),
    ensures
        r.len() == tokens_of(cs@.subrange(from as int, to as int)).len(),
        forall|k: int| 0 <= k < r.len() ==> from <= #[trigger] r[k].0 <= r[k].1 <= to,
        forall|k: int|
            0 <= k < r.len() ==> #[trigger] tokens_of(cs@.subrange(from as int, to as int))[k]
                == cs@.subrange(r[k].0 as int, r[k].1 as int),
{
    let ghost line = cs@.subrange(from as int, to as int);
    let mut out: Vec<(usize, usize)> = Vec::new();
    let ghost mut done: Seq<Seq<char>> = Seq::empty();
    let mut start: usize = from;
    let mut i: usize = from;
    assert(cs@.subrange(from as int, from as int) =~= Seq::<char>::empty());
    while i < to
        invariant
            from <= start <= i <= to <= cs.len(),
            line == cs@.subrange(from as int, to as int),
            tokens_of(line) == done + tokens_from(cs@.subrange(i as int, to as int), cs@.subrange(
                start as int,
                i as int,
            )),
            out.len() == done.len(),
            forall|k: int| 0 <= k < out.len() ==> from <= #[trigger] out[k].0 <= out[k].1 <= to,
            forall|k: int|
                0 <= k < out.len() ==> #[trigger] done[k] == cs@.subrange(
                    out[k].0 as int,
                    out[k].1 as int,
                ),
        decreases to - i,
    {
        let ghost rest = cs@.subrange(i as int, to as int);
        let ghost cur = cs@.subrange(start as int, i as int);
        assert(rest[0] == cs[i as int]);
        assert(rest.drop_first() =~= cs@.subrange(i + 1, to as int));
        assert(cs@.subrange(i + 1, i + 1) =~= Seq::<char>::empty());
        if is_white_space_char(cs[i]) {
            if start < i {
                let ghost old_out = out@;
                out.push((start, i));
                proof {
                    let old_done = done;
                    done = done.push(cur);
                    assert forall|k: int| 0 <= k < out.len() implies from <= out[k].0 <= out[k].1
                        <= to && #[trigger] done[k] == cs@.subrange(
                        out[k].0 as int,
                        out[k].1 as int,
                    ) by {
                        if k < old_out.len() {
                            assert(out[k] == old_out[k]);
                        assert(done[k] == old_done[k]);
                        }
                    }
                }
            }
            assert(tokens_of(line) =~= done + tokens_from(
                cs@.subrange(i + 1, to as int),
                Seq::empty(),
            ));
            start = i + 1;
        } else {
            assert(cur.push(cs[i as int]) =~= cs@.subrange(start as int, i + 1));
        }
        i = i + 1;
    }
    let ghost cur = cs@.subrange(start as int, to as int);
    assert(cs@.subrange(to as int, to as int).len() == 0);
    if start < to {
        let ghost old_out = out@;
        out.push((start, to));
        proof {
            let old_done = done;
            done = done.push(cur);
            assert forall|k: int| 0 <= k < out.len() implies from <= out[k].0 <= out[k].1 <= to
                && #[trigger] done[k] == cs@.subrange(out[k].0 as int, out[k].1 as int) by {
                if k < old_out.len() {
                    assert(out[k] == old_out[k]);
                    assert(done[k] == old_done[k]);
                }
            }
        }
    }
    assert(tokens_of(line) =~= done);
    assert forall|k: int| 0 <= k < out.len() implies from <= out[k].0 <= out[k].1 <= to
        && #[trigger] tokens_of(cs@.subrange(from as int, to as int))[k] == cs@.subrange(
        out[k].0 as int,
        out[k].1 as int,
    ) by {
        assert(done[k] == cs@.subrange(out[k].0 as int, out[k].1 as int));
    }
    out
}

/// The position in `cs` of the first `": "` of `cs[from..to]`, if any.
pub fn find_separator(cs: &Vec<char>, from: usize, to: usize) -> (r: Option<usize>)
    requires
        from <= to <= cs.len(),
    ensures
        r matches Some(p) ==> from <= p && p + 2 <= to && first_separator_at(
            cs@.subrange(from as int, to as int),
            p - from,
        ),
        r is None ==> forall|j: int| !separator_at(cs@.subrange(from as int, to as int), j),
{
    let ghost line = cs@.subrange(from as int, to as int);
    let mut i: usize = from;
    while to - i >= 2
        invariant
            from <= i <= to <= cs.len(),
            line == cs@.subrange(from as int, to as int),
            forall|j: int| 0 <= j < i - from ==> !separator_at(line, j),
        decreases to - i,
    {
        if cs[i] == ':' && cs[i + 1] == ' ' {
            assert(separator_at(line, i - from));
            return Some(i);
        }
        i = i + 1;
    }
    None
}

} // verus!
