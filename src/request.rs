//! The request model and its parser.
use vstd::prelude::*;
use crate::text::{
    chars_of, find_separator, first_separator_at, lemma_split_header_at, line_spans, lines_of,
    split_header, token_spans, tokens_of,
};

verus! {

/// What a request holds, as mathematical values.
pub struct RequestView {
    pub method: Seq<char>,
    pub path: Seq<char>,
    pub version: Seq<char>,
    pub headers: Map<Seq<char>, Seq<char>>,
    pub body: Seq<char>,
}

/// The `i`-th token, or the empty text when there are fewer tokens.
pub open spec fn token_or_empty(ts: Seq<Seq<char>>, i: int) -> Seq<char> {
    if 0 <= i < ts.len() {
        ts[i]
    } else {
        Seq::empty()
    }
}

/// The index of the first empty line at or after `i`, or the number of lines.
pub open spec fn blank_from(lines: Seq<Seq<char>>, i: int) -> int
    decreases lines.len() - i,
{
    if i >= lines.len() || i < 0 {
        lines.len() as int
    } else if lines[i].len() == 0 {
        i
    } else {
        blank_from(lines, i + 1)
    }
}

/// The `(name, value)` pairs of the header lines that hold a `": "`, in order.
pub open spec fn header_pairs(lines: Seq<Seq<char>>) -> Seq<(Seq<char>, Seq<char>)>
    decreases lines.len(),
{
    if lines.len() == 0 {
        Seq::empty()
    } else {
        match split_header(lines.last()) {
            Some(p) => header_pairs(lines.drop_last()).push(p),
            None => header_pairs(lines.drop_last()),
        }
    }
}

/// The mapping that a list of pairs gives, where a later pair overrides an
/// earlier one with the same name.
pub open spec fn header_map(pairs: Seq<(Seq<char>, Seq<char>)>) -> Map<Seq<char>, Seq<char>>
    decreases pairs.len(),
{
    if pairs.len() == 0 {
        Map::empty()
    } else {
        header_map(pairs.drop_last()).insert(pairs.last().0, pairs.last().1)
    }
}

/// Lines joined with `'\n'` between them.
pub open spec fn join_lines(lines: Seq<Seq<char>>) -> Seq<char>
    decreases lines.len(),
{
    if lines.len() == 0 {
        Seq::empty()
    } else if lines.len() == 1 {
        lines[0]
    } else {
        join_lines(lines.drop_last()) + seq!['\n'] + lines.last()
    }
}

/// The first line of a request, or the empty text when there is none.
pub open spec fn request_line(lines: Seq<Seq<char>>) -> Seq<char> {
    if lines.len() > 0 {
        lines[0]
    } else {
        Seq::empty()
    }
}

/// The lines between the request line and the first empty line.
pub open spec fn header_lines(lines: Seq<Seq<char>>) -> Seq<Seq<char>> {
    if lines.len() == 0 {
        Seq::empty()
    } else {
        lines.subrange(1, blank_from(lines, 1))
    }
}

/// The lines after the first empty line; none when there is no empty line.
pub open spec fn body_lines(lines: Seq<Seq<char>>) -> Seq<Seq<char>> {
    let end = blank_from(lines, 1);
    if end < lines.len() {
        lines.skip(end + 1)
    } else {
        Seq::empty()
    }
}

/// The request that a text describes: the first line gives method, path and
/// version as its first three tokens; the following lines up to the first
/// empty one give the headers; the lines after it, joined by `'\n'`, give
/// the body.
pub open spec fn parse_request(s: Seq<char>) -> RequestView {
    let lines = lines_of(s);
    let ts = tokens_of(request_line(lines));
    RequestView {
        method: token_or_empty(ts, 0),
        path: token_or_empty(ts, 1),
        version: token_or_empty(ts, 2),
        headers: header_map(header_pairs(header_lines(lines))),
        body: join_lines(body_lines(lines)),
    }
}

/// The views of a list of stored header pairs.
pub open spec fn pair_views(hs: Seq<(String, String)>) -> Seq<(Seq<char>, Seq<char>)> {
    hs.map_values(|h: (String, String)| (h.0@, h.1@))
}

/// A name that no pair from position `j` on carries is looked up in the
/// pairs before `j`.
proof fn lemma_header_map_prefix(pairs: Seq<(Seq<char>, Seq<char>)>, j: int, name: Seq<char>)
    requires
        0 <= j <= pairs.len(),
        forall|i: int| j <= i < pairs.len() ==> pairs[i].0 != name,
    ensures
        header_map(pairs).contains_key(name) == header_map(pairs.take(j)).contains_key(name),
        header_map(pairs).contains_key(name) ==> header_map(pairs)[name] == header_map(
            pairs.take(j),
        )[name],
    decreases pairs.len() - j,
{
    if j < pairs.len() {
        lemma_header_map_prefix(pairs.drop_last(), j, name);
        assert(pairs.drop_last().take(j) =~= pairs.take(j));
    } else {
        assert(pairs.take(j) =~= pairs);
    }
}

/// With no empty line at or after `k`, the search runs to the end.
proof fn lemma_blank_from_none(lines: Seq<Seq<char>>, k: int)
    requires
        0 <= k,
        forall|i: int| k <= i < lines.len() ==> #[trigger] lines[i].len() > 0,
    ensures
        blank_from(lines, k) == lines.len(),
    decreases lines.len() - k,
{
    if k < lines.len() {
        lemma_blank_from_none(lines, k + 1);
    }
}

/// A request with no empty line after its first line has no body: what
/// follows the request line is read as headers, and nothing is an error.
pub proof fn lemma_no_blank_line_no_body(s: Seq<char>)
    requires
        forall|i: int| 1 <= i < lines_of(s).len() ==> #[trigger] lines_of(s)[i].len() > 0,
    ensures
        parse_request(s).body == Seq::<char>::empty(),
{
    lemma_blank_from_none(lines_of(s), 1);
}

/// One parsed HTTP request.
pub struct HttpRequest {
    method: String,
    path: String,
    version: String,
    headers: Vec<(String, String)>,
    body: String,
}

impl View for HttpRequest {
    type V = RequestView;

    closed spec fn view(&self) -> RequestView {
        RequestView {
            method: self.method@,
            path: self.path@,
            version: self.version@,
            headers: header_map(pair_views(self.headers@)),
            body: self.body@,
        }
    }
}

/// The text of `s` between character positions `from` and `to`.
fn substring(s: &str, from: usize, to: usize) -> (r: String)
    requires
        from <= to <= s@.len(),
    ensures
        r@ == s@.subrange(from as int, to as int),
{
    s.substring_char(from, to).to_owned()
}

impl HttpRequest {
    /// Parses the text of a request. Parsing never fails: what is missing or
    /// malformed leaves the matching field empty.
    pub fn from_raw(request: &str) -> (r: HttpRequest)
        ensures
            r@ == parse_request(request@),
    {
        let cs = chars_of(request);
        let spans = line_spans(&cs);
        let ghost lines = lines_of(cs@);
        let n = spans.len();
        let mut method = String::new();
        let mut path = String::new();
        let mut version = String::new();
        if n > 0 {
            let ts = token_spans(&cs, spans[0].0, spans[0].1);
            let ghost toks = tokens_of(lines[0]);
            assert(lines[0] == cs@.subrange(spans[0].0 as int, spans[0].1 as int));
            if ts.len() > 0 {
                assert(toks[0] == cs@.subrange(ts[0].0 as int, ts[0].1 as int));
                method = substring(request, ts[0].0, ts[0].1);
            }
            if ts.len() > 1 {
                assert(toks[1] == cs@.subrange(ts[1].0 as int, ts[1].1 as int));
                path = substring(request, ts[1].0, ts[1].1);
            }
            if ts.len() > 2 {
                assert(toks[2] == cs@.subrange(ts[2].0 as int, ts[2].1 as int));
                version = substring(request, ts[2].0, ts[2].1);
            }
        }
        assert(method@ == token_or_empty(tokens_of(request_line(lines)), 0));
        assert(path@ == token_or_empty(tokens_of(request_line(lines)), 1));
        assert(version@ == token_or_empty(tokens_of(request_line(lines)), 2));

        let mut headers: Vec<(String, String)> = Vec::new();
        let mut i: usize = if n > 0 {
            1
        } else {
            0
        };
        assert(pair_views(headers@) =~= Seq::empty());
        if n > 0 {
            assert(lines.subrange(1, 1) =~= Seq::<Seq<char>>::empty());
        }
        while i < n && spans[i].0 < spans[i].1
            invariant
                n == spans.len() == lines.len(),
                lines == lines_of(cs@),
                cs@ == request@,
                n > 0 ==> 1 <= i <= n,
                n == 0 ==> i == 0 && headers.len() == 0,
                forall|k: int| 0 <= k < n ==> #[trigger] spans[k].0 <= spans[k].1 <= cs.len(),
                forall|k: int|
                    0 <= k < n ==> #[trigger] lines[k] == cs@.subrange(
                        spans[k].0 as int,
                        spans[k].1 as int,
                    ),
                n > 0 ==> blank_from(lines, 1) == blank_from(lines, i as int),
                n > 0 ==> pair_views(headers@) == header_pairs(lines.subrange(1, i as int)),
            decreases n - i,
        {
            let a = spans[i].0;
            let b = spans[i].1;
            let ghost line = lines[i as int];
            let ghost before = lines.subrange(1, i as int);
            assert(lines.subrange(1, i + 1).drop_last() =~= before);
            assert(lines.subrange(1, i + 1).last() == line);
            match find_separator(&cs, a, b) {
                Some(p) => {
                    let key = substring(request, a, p);
                    let value = substring(request, p + 2, b);
                    proof {
                        lemma_split_header_at(line, p - a);
                        assert(line.take(p - a) =~= key@);
                        assert(line.skip(p - a + 2) =~= value@);
                    }
                    headers.push((key, value));
                    assert(pair_views(headers@) =~= header_pairs(before).push((key@, value@)));
                },
                None => {
                    assert(!(exists|j: int| first_separator_at(line, j)));
                    assert(split_header(line) is None);
                },
            }
            i = i + 1;
        }
        proof {
            if n > 0 {
                assert(blank_from(lines, i as int) == i);
                assert(header_lines(lines) == lines.subrange(1, i as int));
            } else {
                assert(header_lines(lines) =~= Seq::empty());
                assert(pair_views(headers@) =~= Seq::empty());
            }
        }

        let mut body = String::new();
        if i < n {
            let ghost rest = lines.skip(i + 1);
            assert(body_lines(lines) == rest);
            let mut j: usize = i + 1;
            assert(rest.take(0) =~= Seq::<Seq<char>>::empty());
            while j < n
                invariant
                    n == spans.len() == lines.len(),
                    i < n,
                    i + 1 <= j <= n,
                    rest == lines.skip(i + 1),
                    cs@ == request@,
                    forall|k: int| 0 <= k < n ==> #[trigger] spans[k].0 <= spans[k].1 <= cs.len(),
                    forall|k: int|
                        0 <= k < n ==> #[trigger] lines[k] == cs@.subrange(
                            spans[k].0 as int,
                            spans[k].1 as int,
                        ),
                    body@ == join_lines(rest.take(j - (i + 1))),
                decreases n - j,
            {
                let ghost done = rest.take(j - (i + 1));
                let line = substring(request, spans[j].0, spans[j].1);
                assert(rest.take(j + 1 - (i + 1)).drop_last() =~= done);
                assert(rest.take(j + 1 - (i + 1)).last() == lines[j as int]);
                if j > i + 1 {
                    proof {
                        reveal_strlit("\n");
                    }
                    body.append("\n");
                    body.append(line.as_str());
                    assert(body@ =~= join_lines(rest.take(j + 1 - (i + 1))));
                } else {
                    body.append(line.as_str());
                    assert(rest.take(1) =~= seq![lines[j as int]]);
                    assert(body@ =~= join_lines(rest.take(j + 1 - (i + 1))));
                }
                j = j + 1;
            }
            assert(rest.take(n - (i + 1)) =~= rest);
        } else {
            assert(body_lines(lines) =~= Seq::empty());
        }
        let r = HttpRequest { method, path, version, headers, body };
        assert(r@.headers == header_map(header_pairs(header_lines(lines))));
        r
    }

    /// The request method, such as `GET`.
    pub fn method(&self) -> (r: &str)
        ensures
            r@ == self@.method,
    {
        self.method.as_str()
    }

    /// The request target, such as `/index.html`.
    pub fn path(&self) -> (r: &str)
        ensures
            r@ == self@.path,
    {
        self.path.as_str()
    }

    /// The protocol version, such as `HTTP/1.1`.
    pub fn version(&self) -> (r: &str)
        ensures
            r@ == self@.version,
    {
        self.version.as_str()
    }

    /// The body: the lines after the blank line, joined by `'\n'`.
    pub fn body(&self) -> (r: &str)
        ensures
            r@ == self@.body,
    {
        self.body.as_str()
    }

    /// The value of the header `name`; names are compared exactly, and of
    /// several headers with one name the last counts.
    pub fn header(&self, name: &str) -> (r: Option<&str>)
        ensures
            r is Some <==> self@.headers.contains_key(name@),
            r matches Some(v) ==> v@ == self@.headers[name@],
    {
        let key = name.to_owned();
        let ghost pairs = pair_views(self.headers@);
        let mut j: usize = self.headers.len();
        while j > 0
            invariant
                j <= self.headers.len(),
                pairs == pair_views(self.headers@),
                key@ == name@,
                forall|i: int| j <= i < pairs.len() ==> pairs[i].0 != name@,
            decreases j,
        {
            let e = &self.headers[j - 1];
            if e.0 == key {
                proof {
                    lemma_header_map_prefix(pairs, j as int, name@);
                    assert(pairs.take(j as int).drop_last() =~= pairs.take(j - 1));
                }
                return Some(e.1.as_str());
            }
            j = j - 1;
        }
        proof {
            lemma_header_map_prefix(pairs, 0, name@);
            assert(pairs.take(0) =~= Seq::empty());
        }
        None
    }
}

} // verus!
