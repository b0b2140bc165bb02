//! The text of a well-formed request, and the proof that parsing it gives
//! back each of its parts.
use vstd::prelude::*;
use crate::request::{
    blank_from, body_lines, header_lines, header_map, header_pairs, join_lines, parse_request,
    request_line, RequestView,
};
use crate::text::{
    first_separator_at, is_white_space, lemma_split_header_at, lines_from, lines_of, separator_at,
    strip_cr, tokens_from, tokens_of,
};

verus! {

/// A carriage return and a line feed.
pub open spec fn crlf() -> Seq<char> {
    seq!['\r', '\n']
}

/// One header line, without its line ending.
pub open spec fn header_line(h: (Seq<char>, Seq<char>)) -> Seq<char> {
    h.0 + seq![':', ' '] + h.1
}

/// The header lines of a request, each ended by CRLF.
pub open spec fn header_block(headers: Seq<(Seq<char>, Seq<char>)>) -> Seq<char>
    decreases headers.len(),
{
    if headers.len() == 0 {
        Seq::empty()
    } else {
        header_block(headers.drop_last()) + header_line(headers.last()) + crlf()
    }
}

/// `METHOD PATH VERSION`, CRLF, the headers, CRLF, then the body.
pub open spec fn request_text(
    method: Seq<char>,
    path: Seq<char>,
    version: Seq<char>,
    headers: Seq<(Seq<char>, Seq<char>)>,
    body: Seq<char>,
) -> Seq<char> {
    method + seq![' '] + path + seq![' '] + version + crlf() + header_block(headers) + crlf() + body
}

/// A non-empty word without whitespace.
pub open spec fn is_token(t: Seq<char>) -> bool {
    t.len() > 0 && forall|i: int| 0 <= i < t.len() ==> !is_white_space(#[trigger] t[i])
}

/// A text without line feed.
pub open spec fn no_line_feed(t: Seq<char>) -> bool {
    forall|i: int| 0 <= i < t.len() ==> #[trigger] t[i] != '\n'
}

/// A text in which no carriage return is directly followed by a line feed.
pub open spec fn no_crlf(t: Seq<char>) -> bool {
    forall|i: int| 0 <= i < t.len() - 1 ==> !(#[trigger] t[i] == '\r' && t[i + 1] == '\n')
}

/// A header that reads back as itself: a name without line feed or `": "`,
/// and a value without line feed.
pub open spec fn is_plain_header(h: (Seq<char>, Seq<char>)) -> bool {
    no_line_feed(h.0) && no_line_feed(h.1) && forall|i: int| !separator_at(h.0, i)
}

/// A body that reads back as itself: no CRLF inside, and no line feed at
/// its end (the parser rejoins the body's lines with `'\n'`).
pub open spec fn is_plain_body(b: Seq<char>) -> bool {
    no_crlf(b) && (b.len() == 0 || b.last() != '\n')
}

/// A line without line feed followed by `'\n'` is one line of the text.
proof fn lemma_lines_take_line(a: Seq<char>, rest: Seq<char>, cur: Seq<char>)
    requires
        no_line_feed(a),
    ensures
        lines_from(a + seq!['\n'] + rest, cur) == seq![strip_cr(cur + a)] + lines_from(
            rest,
            Seq::empty(),
        ),
    decreases a.len(),
{
    let s = a + seq!['\n'] + rest;
    if a.len() == 0 {
        assert(s.drop_first() =~= rest);
        assert(cur + a =~= cur);
    } else {
        assert(s[0] == a[0]);
        assert(s.drop_first() =~= a.drop_first() + seq!['\n'] + rest);
        lemma_lines_take_line(a.drop_first(), rest, cur.push(a[0]));
        assert(cur.push(a[0]) + a.drop_first() =~= cur + a);
    }
}

/// A line ended by CRLF is one line of the text, without the CRLF.
proof fn lemma_lines_take_crlf_line(x: Seq<char>, rest: Seq<char>)
    requires
        no_line_feed(x),
    ensures
        lines_from(x + crlf() + rest, Seq::empty()) == seq![x] + lines_from(rest, Seq::empty()),
{
    let a = x.push('\r');
    assert(x + crlf() + rest =~= a + seq!['\n'] + rest);
    lemma_lines_take_line(a, rest, Seq::empty());
    assert(Seq::<char>::empty() + a =~= a);
    assert(a.drop_last() =~= x);
}

/// The lines of a block of headers are the header lines.
proof fn lemma_lines_of_header_block(headers: Seq<(Seq<char>, Seq<char>)>, rest: Seq<char>)
    requires
        forall|i: int| 0 <= i < headers.len() ==> is_plain_header(#[trigger] headers[i]),
    ensures
        lines_from(header_block(headers) + rest, Seq::empty()) == headers.map_values(
            |h: (Seq<char>, Seq<char>)| header_line(h),
        ) + lines_from(rest, Seq::empty()),
    decreases headers.len(),
{
    let lines = headers.map_values(|h: (Seq<char>, Seq<char>)| header_line(h));
    if headers.len() == 0 {
        assert(header_block(headers) + rest =~= rest);
        assert(lines =~= Seq::empty());
        assert(lines + lines_from(rest, Seq::empty()) =~= lines_from(rest, Seq::empty()));
    } else {
        let prev = headers.drop_last();
        let h = headers.last();
        let line = header_line(h);
        assert(is_plain_header(headers[headers.len() - 1]));
        assert forall|i: int| 0 <= i < prev.len() implies is_plain_header(#[trigger] prev[i]) by {
            assert(prev[i] == headers[i]);
        }
        assert(no_line_feed(line)) by {
            assert forall|i: int| 0 <= i < line.len() implies #[trigger] line[i] != '\n' by {
                if i < h.0.len() {
                    assert(line[i] == h.0[i]);
                } else if i >= h.0.len() + 2 {
                    assert(line[i] == h.1[i - h.0.len() - 2]);
                }
            }
        }
        let tail = line + crlf() + rest;
        assert(header_block(headers) + rest =~= header_block(prev) + tail);
        lemma_lines_of_header_block(prev, tail);
        lemma_lines_take_crlf_line(line, rest);
        let prev_lines = prev.map_values(|h: (Seq<char>, Seq<char>)| header_line(h));
        assert(lines =~= prev_lines.push(line));
        assert(prev_lines + (seq![line] + lines_from(rest, Seq::empty())) =~= lines + lines_from(
            rest,
            Seq::empty(),
        ));
    }
}

/// The first empty line at or after `k` is the one at `j`.
proof fn lemma_blank_from_at(lines: Seq<Seq<char>>, k: int, j: int)
    requires
        0 <= k <= j < lines.len(),
        lines[j].len() == 0,
        forall|i: int| k <= i < j ==> #[trigger] lines[i].len() > 0,
    ensures
        blank_from(lines, k) == j,
    decreases j - k,
{
    if k < j {
        lemma_blank_from_at(lines, k + 1, j);
    }
}

/// A header line splits back into its name and value.
proof fn lemma_split_header_line(h: (Seq<char>, Seq<char>))
    requires
        is_plain_header(h),
    ensures
        crate::text::split_header(header_line(h)) == Some(h),
{
    let line = header_line(h);
    let n = h.0.len() as int;
    assert(line[n] == ':' && line[n + 1] == ' ');
    assert forall|j: int| 0 <= j < n implies !separator_at(line, j) by {
        if j + 1 < n {
            assert(line[j] == h.0[j] && line[j + 1] == h.0[j + 1]);
            assert(!separator_at(h.0, j));
        } else {
            assert(line[j + 1] == ':');
        }
    }
    assert(first_separator_at(line, n));
    lemma_split_header_at(line, n);
    assert(line.take(n) =~= h.0);
    assert(line.skip(n + 2) =~= h.1);
}

/// The header lines give back the headers.
proof fn lemma_header_pairs_of_lines(headers: Seq<(Seq<char>, Seq<char>)>)
    requires
        forall|i: int| 0 <= i < headers.len() ==> is_plain_header(#[trigger] headers[i]),
    ensures
        header_pairs(headers.map_values(|h: (Seq<char>, Seq<char>)| header_line(h))) == headers,
    decreases headers.len(),
{
    let lines = headers.map_values(|h: (Seq<char>, Seq<char>)| header_line(h));
    if headers.len() == 0 {
        assert(lines =~= Seq::empty());
    } else {
        let prev = headers.drop_last();
        assert forall|i: int| 0 <= i < prev.len() implies is_plain_header(#[trigger] prev[i]) by {
            assert(prev[i] == headers[i]);
        }
        lemma_header_pairs_of_lines(prev);
        assert(lines.drop_last() =~= prev.map_values(|h: (Seq<char>, Seq<char>)| header_line(h)));
        assert(is_plain_header(headers[headers.len() - 1]));
        lemma_split_header_line(headers.last());
        assert(prev.push(headers.last()) =~= headers);
    }
}

/// Lines read from a non-empty text, or with a line begun, are not none.
proof fn lemma_lines_not_empty(s: Seq<char>, cur: Seq<char>)
    requires
        s.len() > 0 || cur.len() > 0,
    ensures
        lines_from(s, cur).len() > 0,
    decreases s.len(),
{
    if s.len() > 0 && s[0] != '\n' {
        lemma_lines_not_empty(s.drop_first(), cur.push(s[0]));
    }
}

/// Joining a line in front of other lines puts one `'\n'` between.
proof fn lemma_join_front(x: Seq<char>, lines: Seq<Seq<char>>)
    requires
        lines.len() > 0,
    ensures
        join_lines(seq![x] + lines) == x + seq!['\n'] + join_lines(lines),
    decreases lines.len(),
{
    let all = seq![x] + lines;
    assert(all.last() == lines.last());
    assert(all.len() >= 2);
    if lines.len() == 1 {
        assert(all.drop_last() =~= seq![x]);
        assert(seq![x][0] == x);
        assert(join_lines(seq![x]) == x);
        assert(lines[0] == lines.last());
        assert(join_lines(lines) == lines[0]);
    } else {
        assert(all.drop_last() =~= seq![x] + lines.drop_last());
        lemma_join_front(x, lines.drop_last());
        assert(join_lines(lines) == join_lines(lines.drop_last()) + seq!['\n'] + lines.last());
        assert(x + seq!['\n'] + join_lines(lines.drop_last()) + seq!['\n'] + lines.last() =~= x
            + seq!['\n'] + join_lines(lines));
    }
}

/// A text with no CRLF and no final line feed is its lines rejoined.
proof fn lemma_join_lines_back(s: Seq<char>, cur: Seq<char>)
    requires
        no_crlf(cur + s),
        s.len() == 0 || s.last() != '\n',
    ensures
        join_lines(lines_from(s, cur)) == cur + s,
    decreases s.len(),
{
    if s.len() == 0 {
        assert(cur + s =~= cur);
        if cur.len() > 0 {
            assert(join_lines(seq![cur]) == cur);
        }
    } else {
        let rest = s.drop_first();
        if s[0] == '\n' {
            let whole = cur + s;
            if cur.len() > 0 {
                assert(whole[cur.len() - 1] == cur.last() && whole[cur.len() as int] == '\n');
            }
            assert(strip_cr(cur) == cur);
            assert(rest.len() > 0);
            assert(no_crlf(Seq::<char>::empty() + rest)) by {
                let t = Seq::<char>::empty() + rest;
                assert forall|i: int| 0 <= i < t.len() - 1 implies !(#[trigger] t[i] == '\r'
                    && t[i + 1] == '\n') by {
                    assert(t[i] == whole[cur.len() + 1 + i]);
                    assert(t[i + 1] == whole[cur.len() + 1 + i + 1]);
                }
            }
            assert(rest.last() == s.last());
            lemma_join_lines_back(rest, Seq::empty());
            assert(Seq::<char>::empty() + rest =~= rest);
            lemma_lines_not_empty(rest, Seq::empty());
            lemma_join_front(cur, lines_from(rest, Seq::empty()));
            assert(cur + seq!['\n'] + rest =~= cur + s);
        } else {
            assert(cur.push(s[0]) + rest =~= cur + s);
            if rest.len() > 0 {
                assert(rest.last() == s.last());
            }
            lemma_join_lines_back(rest, cur.push(s[0]));
        }
    }
}

/// A word without whitespace extends the token being read.
proof fn lemma_tokens_word(w: Seq<char>, rest: Seq<char>, cur: Seq<char>)
    requires
        forall|i: int| 0 <= i < w.len() ==> !is_white_space(#[trigger] w[i]),
    ensures
        tokens_from(w + rest, cur) == tokens_from(rest, cur + w),
    decreases w.len(),
{
    if w.len() == 0 {
        assert(w + rest =~= rest);
        assert(cur + w =~= cur);
    } else {
        let s = w + rest;
        assert(s[0] == w[0]);
        assert(s.drop_first() =~= w.drop_first() + rest);
        assert(!is_white_space(w[0]));
        lemma_tokens_word(w.drop_first(), rest, cur.push(w[0]));
        assert(cur.push(w[0]) + w.drop_first() =~= cur + w);
    }
}

/// The tokens of `METHOD PATH VERSION` are those three words.
proof fn lemma_tokens_of_request_line(m: Seq<char>, p: Seq<char>, v: Seq<char>)
    requires
        is_token(m),
        is_token(p),
        is_token(v),
    ensures
        tokens_of(m + seq![' '] + p + seq![' '] + v) == seq![m, p, v],
{
    let e = Seq::<char>::empty();
    let sp = seq![' '];
    assert(is_white_space(' '));
    let after_p = sp + v;
    let after_m = sp + p + after_p;
    assert(m + sp + p + sp + v =~= m + after_m);
    lemma_tokens_word(m, after_m, e);
    assert(e + m =~= m);
    assert(after_m[0] == ' ');
    assert(after_m.drop_first() =~= p + after_p);
    lemma_tokens_word(p, after_p, e);
    assert(e + p =~= p);
    assert(after_p[0] == ' ');
    assert(after_p.drop_first() =~= v);
    assert(v =~= v + e);
    lemma_tokens_word(v, e, e);
    assert(e + v =~= v);
    assert(tokens_from(e, v) == seq![v]);
    assert(tokens_from(after_p, p) == seq![p] + seq![v]);
    assert(tokens_from(after_m, m) == seq![m] + (seq![p] + seq![v]));
    assert(seq![m] + (seq![p] + seq![v]) =~= seq![m, p, v]);
}

/// Parsing a well-formed request gives back exactly its method, path and
/// version, the mapping of its headers (the last of equal names counts),
/// and its body verbatim.
pub proof fn lemma_parse_well_formed_request(
    method: Seq<char>,
    path: Seq<char>,
    version: Seq<char>,
    headers: Seq<(Seq<char>, Seq<char>)>,
    body: Seq<char>,
)
    requires
        is_token(method),
        is_token(path),
        is_token(version),
        forall|i: int| 0 <= i < headers.len() ==> is_plain_header(#[trigger] headers[i]),
        is_plain_body(body),
    ensures
        parse_request(request_text(method, path, version, headers, body)) == (RequestView {
            method,
            path,
            version,
            headers: header_map(headers),
            body,
        }),
{
    let e = Seq::<char>::empty();
    let first = method + seq![' '] + path + seq![' '] + version;
    let block = header_block(headers);
    let text = request_text(method, path, version, headers, body);
    let hls = headers.map_values(|h: (Seq<char>, Seq<char>)| header_line(h));
    let n = headers.len() as int;

    assert(no_line_feed(first)) by {
        assert forall|i: int| 0 <= i < first.len() implies #[trigger] first[i] != '\n' by {
            assert(is_white_space('\n'));
            let a = method.len() as int;
            let b = a + 1 + path.len();
            if i < a {
                assert(first[i] == method[i]);
            } else if a < i < b {
                assert(first[i] == path[i - a - 1]);
            } else if i > b {
                assert(first[i] == version[i - b - 1]);
            }
        }
    }
    assert(text =~= first + crlf() + (block + (crlf() + body)));
    lemma_lines_take_crlf_line(first, block + (crlf() + body));
    lemma_lines_of_header_block(headers, crlf() + body);
    assert(no_line_feed(e));
    assert(e + crlf() + body =~= crlf() + body);
    lemma_lines_take_crlf_line(e, body);
    let rest = lines_from(body, e);
    let lines = lines_of(text);
    assert(lines =~= seq![first] + hls + seq![e] + rest);
    assert(lines[0] == first);

    // The blank line closes the headers.
    assert forall|i: int| 1 <= i < 1 + n implies #[trigger] lines[i].len() > 0 by {
        assert(lines[i] == hls[i - 1]);
        assert(header_line(headers[i - 1]).len() >= 2);
    }
    assert(lines[1 + n] == e);
    lemma_blank_from_at(lines, 1, 1 + n);
    assert(header_lines(lines) =~= hls);
    lemma_header_pairs_of_lines(headers);
    assert(body_lines(lines) =~= rest);

    // The body comes back whole.
    assert(e + body =~= body);
    lemma_join_lines_back(body, e);

    lemma_tokens_of_request_line(method, path, version);
    assert(request_line(lines) == first);
}

} // verus!
