//! Records of the plain-text triangle-mesh format.
//!
//! Each line is a record: an operator, one whitespace byte, then values
//! separated by whitespace. `v` records carry three vertex coordinates and
//! `f` records three 1-based vertex indices into the vertices in file order;
//! any other operator, or a line with no whitespace at all, is an error.
//! Value words that do not parse are skipped, and the record needs exactly
//! three that do. Coordinates are decimal fractions, which this module hands
//! back as byte ranges of the line for the caller to read.
use vstd::prelude::*;

verus! {

/// ASCII whitespace: space, tab, line feed, vertical tab, form feed, return.
pub open spec fn is_space(b: u8) -> bool {
    b == 0x20 || (0x09 <= b && b <= 0x0d)
}

/// Length of the run of non-space bytes at the start of `s`.
pub open spec fn word_len(s: Seq<u8>) -> nat
    decreases s.len(),
{
    if s.len() == 0 || is_space(s[0]) {
        0
    } else {
        1 + word_len(s.drop_first())
    }
}

proof fn lemma_word_len_bounds(s: Seq<u8>)
    ensures
        word_len(s) <= s.len(),
        s.len() > 0 && !is_space(s[0]) ==> word_len(s) >= 1,
    decreases s.len(),
{
    if s.len() > 0 && !is_space(s[0]) {
        lemma_word_len_bounds(s.drop_first());
    }
}

/// The whitespace-separated words of `s`, in order.
pub open spec fn words(s: Seq<u8>) -> Seq<Seq<u8>>
    decreases s.len(),
{
    if s.len() == 0 {
        seq![]
    } else if is_space(s[0]) {
        words(s.drop_first())
    } else {
        let n = word_len(s);
        if 1 <= n <= s.len() {
            seq![s.take(n as int)] + words(s.skip(n as int))
        } else {
            seq![]
        }
    }
}

/// Byte offsets `start..end` of a word within its line.
#[derive(Clone, Copy, Debug, PartialEq, Eq, Structural)]
pub struct Span {
    pub start: usize,
    pub end: usize,
}

/// The bytes of `s` that the spans cover, in order.
pub open spec fn span_bytes(s: Seq<u8>, spans: Seq<Span>) -> Seq<Seq<u8>> {
    spans.map_values(|sp: Span| s.subrange(sp.start as int, sp.end as int))
}

fn is_space_byte(b: u8) -> (r: bool)
    ensures
        r == is_space(b),
{
    b == 0x20 || (0x09 <= b && b <= 0x0d)
}

/// The spans of the words of `s` from offset `from` on.
pub fn split_words(s: &[u8], from: usize) -> (r: Vec<Span>)
    requires
        from <= s@.len(),
    ensures
        span_bytes(s@, r@) == words(s@.skip(from as int)),
        forall|k: int|
            0 <= k < r@.len() ==> from <= #[trigger] r@[k].start <= r@[k].end <= s@.len(),
{
    let n = s.len();
    let mut spans: Vec<Span> = Vec::new();
    let mut i = from;
    while i < n
        invariant
            n == s@.len(),
            from <= i <= n,
            span_bytes(s@, spans@) + words(s@.skip(i as int)) == words(s@.skip(from as int)),
            forall|k: int|
                0 <= k < spans@.len() ==> from <= #[trigger] spans@[k].start <= spans@[k].end <= i,
        decreases n - i,
    {
        if is_space_byte(s[i]) {
            proof {
                assert(s@.skip(i as int).drop_first() =~= s@.skip(i as int + 1));
            }
            i = i + 1;
        } else {
            let start = i;
            while i < n && !is_space_byte(s[i])
                invariant
                    n == s@.len(),
                    start <= i <= n,
                    word_len(s@.skip(start as int)) == (i - start) + word_len(s@.skip(i as int)),
                decreases n - i,
            {
                proof {
                    assert(s@.skip(i as int).drop_first() =~= s@.skip(i as int + 1));
                }
                i = i + 1;
            }
            proof {
                let rest = s@.skip(start as int);
                let w = (i - start) as nat;
                assert(word_len(s@.skip(i as int)) == 0);
                assert(word_len(rest) == w);
                assert(rest[0] == s@[start as int]);
                lemma_word_len_bounds(rest);
                assert(rest.take(w as int) =~= s@.subrange(start as int, i as int));
                assert(rest.skip(w as int) =~= s@.skip(i as int));
                assert(words(rest) == seq![rest.take(w as int)] + words(rest.skip(w as int)));
            }
            let ghost before = spans@;
            spans.push(Span { start, end: i });
            proof {
                assert(span_bytes(s@, spans@) =~= span_bytes(s@, before).push(
                    s@.subrange(start as int, i as int),
                ));
                assert(span_bytes(s@, spans@) + words(s@.skip(i as int)) =~= span_bytes(s@, before)
                    + words(s@.skip(start as int)));
            }
        }
    }
    proof {
        assert(s@.skip(n as int) =~= Seq::<u8>::empty());
        assert(span_bytes(s@, spans@) + words(s@.skip(n as int)) =~= span_bytes(s@, spans@));
    }
    spans
}


pub open spec fn is_digit(b: u8) -> bool {
    0x30 <= b && b <= 0x39
}

/// The value of a string of decimal digits.
pub open spec fn digits_value(t: Seq<u8>) -> nat
    decreases t.len(),
{
    if t.len() == 0 {
        0
    } else {
        digits_value(t.drop_last()) * 10 + (t.last() - 0x30) as nat
    }
}

/// The digits of an index word: the word without one leading `+`.
pub open spec fn unsigned_digits(t: Seq<u8>) -> Seq<u8> {
    if t.len() > 0 && t[0] == 0x2b {
        t.drop_first()
    } else {
        t
    }
}

pub open spec fn all_digits(d: Seq<u8>) -> bool {
    forall|i: int| 0 <= i < d.len() ==> is_digit(#[trigger] d[i])
}

/// An index word: an optional `+`, then one or more decimal digits, with a
/// value that fits in `usize`. Anything else reads as nothing.
pub open spec fn index_value(t: Seq<u8>) -> Option<nat> {
    let d = unsigned_digits(t);
    if d.len() > 0 && all_digits(d) && digits_value(d) <= usize::MAX {
        Some(digits_value(d))
    } else {
        None
    }
}

proof fn lemma_digits_value_grows(t: Seq<u8>, k: int)
    requires
        0 <= k <= t.len(),
        all_digits(t),
    ensures
        digits_value(t.take(k)) <= digits_value(t),
    decreases t.len() - k,
{
    if k < t.len() {
        let u = t.take(k + 1);
        assert(u.drop_last() =~= t.take(k));
        assert(is_digit(t[k]));
        assert(u.last() == t[k]);
        lemma_digits_value_grows(t, k + 1);
    } else {
        assert(t.take(k) =~= t);
    }
}

/// Reads an index word as `index_value` describes.
pub fn parse_index(t: &[u8]) -> (r: Option<usize>)
    ensures
        r matches Some(v) ==> index_value(t@) == Some(v as nat),
        r is None ==> index_value(t@) is None,
{
    let n = t.len();
    let mut i: usize = 0;
    if n > 0 && t[0] == 0x2b {
        i = 1;
    }
    let ghost d = t@.skip(i as int);
    proof {
        if i == 1 {
            assert(d =~= t@.drop_first());
        } else {
            assert(d =~= t@);
        }
    }
    if i == n {
        return None;
    }
    let first = i;
    let mut value: usize = 0;
    while i < n
        invariant
            first <= i <= n,
            n == t@.len(),
            d == t@.skip(first as int),
            d == unsigned_digits(t@),
            all_digits(d.take(i - first)),
            value == digits_value(d.take(i - first)),
        decreases n - i,
    {
        let b = t[i];
        if b < 0x30 || b > 0x39 {
            proof {
                assert(d[i - first] == b);
                assert(!is_digit(d[i - first]));
            }
            return None;
        }
        let digit = (b - 0x30) as usize;
        proof {
            assert(all_digits(d.take(i - first + 1))) by {
                assert forall|k: int| 0 <= k < i - first + 1 implies is_digit(
                    #[trigger] d.take(i - first + 1)[k],
                ) by {
                    if k < i - first {
                        assert(d.take(i - first + 1)[k] == d.take(i - first)[k]);
                    }
                }
            }
            let u = d.take(i - first + 1);
            assert(u.drop_last() =~= d.take(i - first));
            assert(u.last() == b);
        }
        if value > (usize::MAX - digit) / 10 {
            proof {
                if all_digits(d) {
                    lemma_digits_value_grows(d, i - first + 1);
                }
                assert(value * 10 + digit > usize::MAX) by (nonlinear_arith)
                    requires
                        value > (usize::MAX - digit) / 10,
                        digit <= 9,
                ;
            }
            return None;
        }
        value = value * 10 + digit;
        i = i + 1;
    }
    proof {
        assert(d.take(n - first) =~= d);
    }
    Some(value)
}


/// Why a mesh could not be read.
#[derive(Clone, Copy, Debug, PartialEq, Eq, Structural)]
pub enum LoadError {
    /// A line with no whitespace after its operator.
    MissingSeparator,
    /// An operator other than `v` and `f`.
    UnknownRecord,
    /// A face record without exactly three readable indices.
    FaceArity,
    /// A face index that names no vertex.
    IndexOutOfRange,
}

/// One line of mesh text.
#[derive(Debug)]
pub enum Record {
    /// A vertex record: the spans of its value words, coordinates to be read.
    Vertex(Vec<Span>),
    /// A face record: its three 1-based vertex indices.
    Face(usize, usize, usize),
}

/// The values of the readable index words among `ws`, in order.
pub open spec fn index_values(ws: Seq<Seq<u8>>) -> Seq<nat>
    decreases ws.len(),
{
    if ws.len() == 0 {
        seq![]
    } else {
        let rest = index_values(ws.drop_last());
        match index_value(ws.last()) {
            Some(v) => rest.push(v),
            None => rest,
        }
    }
}

/// The operator of a line: the bytes before its first whitespace byte.
pub open spec fn operator(line: Seq<u8>) -> Seq<u8> {
    line.take(word_len(line) as int)
}

/// The value words of a line: the words after its first whitespace byte.
pub open spec fn value_words(line: Seq<u8>) -> Seq<Seq<u8>> {
    words(line.skip(word_len(line) + 1int))
}

/// What reading `line` gives, with the spans of a vertex record left open.
pub open spec fn record_matches(line: Seq<u8>, r: Result<Record, LoadError>) -> bool {
    if word_len(line) >= line.len() {
        r == Err::<Record, LoadError>(LoadError::MissingSeparator)
    } else if operator(line) == seq![0x76u8] {
        r matches Ok(Record::Vertex(spans)) && span_bytes(line, spans@) == value_words(line)
    } else if operator(line) == seq![0x66u8] {
        let vs = index_values(value_words(line));
        if vs.len() == 3 {
            r == Ok::<Record, LoadError>(Record::Face(vs[0] as usize, vs[1] as usize, vs[2] as usize))
        } else {
            r == Err::<Record, LoadError>(LoadError::FaceArity)
        }
    } else {
        r == Err::<Record, LoadError>(LoadError::UnknownRecord)
    }
}

proof fn lemma_index_values_bounded(ws: Seq<Seq<u8>>)
    ensures
        forall|k: int|
            0 <= k < index_values(ws).len() ==> #[trigger] index_values(ws)[k] <= usize::MAX,
    decreases ws.len(),
{
    if ws.len() > 0 {
        let rest = index_values(ws.drop_last());
        lemma_index_values_bounded(ws.drop_last());
        if let Some(v) = index_value(ws.last()) {
            assert forall|k: int| 0 <= k < rest.len() + 1 implies #[trigger] rest.push(v)[k]
                <= usize::MAX by {
                if k < rest.len() {
                    assert(rest.push(v)[k] == rest[k]);
                }
            }
        }
    }
}

/// Reads one line of mesh text.
pub fn parse_record(line: &[u8]) -> (r: Result<Record, LoadError>)
    ensures
        record_matches(line@, r),
{
    let n = line.len();
    let mut sep: usize = 0;
    proof {
        assert(line@.skip(0) =~= line@);
    }
    while sep < n && !is_space_byte(line[sep])
        invariant
            sep <= n,
            n == line@.len(),
            word_len(line@) == sep + word_len(line@.skip(sep as int)),
        decreases n - sep,
    {
        proof {
            assert(line@.skip(sep as int).drop_first() =~= line@.skip(sep as int + 1));
        }
        sep = sep + 1;
    }
    proof {
        if sep < n {
            assert(line@.skip(sep as int)[0] == line@[sep as int]);
        }
        assert(word_len(line@) == sep);
    }
    if sep == n {
        return Err(LoadError::MissingSeparator);
    }
    proof {
        reveal_with_fuel(word_len, 2);
    }
    let spans = split_words(line, sep + 1);
    if sep == 1 && line[0] == 0x76 {
        proof {
            assert(operator(line@) =~= seq![0x76u8]);
        }
        return Ok(Record::Vertex(spans));
    }
    if !(sep == 1 && line[0] == 0x66) {
        proof {
            if operator(line@) == seq![0x76u8] || operator(line@) == seq![0x66u8] {
                assert(operator(line@).len() == 1);
                assert(operator(line@)[0] == line@[0]);
            }
        }
        return Err(LoadError::UnknownRecord);
    }
    proof {
        assert(operator(line@) =~= seq![0x66u8]);
        assert(operator(line@) != seq![0x76u8]);
    }
    let ghost ws = span_bytes(line@, spans@);
    let mut values: Vec<usize> = Vec::new();
    let mut k: usize = 0;
    while k < spans.len()
        invariant
            k <= spans@.len(),
            ws == span_bytes(line@, spans@),
            forall|j: int|
                0 <= j < spans@.len() ==> sep + 1 <= #[trigger] spans@[j].start <= spans@[j].end
                    <= line@.len(),
            values@.map_values(|v: usize| v as nat) == index_values(ws.take(k as int)),
        decreases spans@.len() - k,
    {
        let sp = spans[k];
        let word = &line[sp.start..sp.end];
        proof {
            assert(word@ == ws[k as int]);
            assert(ws.take(k as int + 1).drop_last() =~= ws.take(k as int));
            assert(ws.take(k as int + 1).last() == ws[k as int]);
        }
        match parse_index(word) {
            Some(v) => {
                values.push(v);
                proof {
                    assert(values@.map_values(|v: usize| v as nat) =~= index_values(
                        ws.take(k as int),
                    ).push(v as nat));
                }
            },
            None => {},
        }
        k = k + 1;
    }
    proof {
        assert(ws.take(spans@.len() as int) =~= ws);
        lemma_index_values_bounded(ws);
    }
    if values.len() != 3 {
        return Err(LoadError::FaceArity);
    }
    proof {
        assert(values@.map_values(|v: usize| v as nat)[0] == values@[0] as nat);
        assert(values@.map_values(|v: usize| v as nat)[1] == values@[1] as nat);
        assert(values@.map_values(|v: usize| v as nat)[2] == values@[2] as nat);
    }
    Ok(Record::Face(values[0], values[1], values[2]))
}


/// Turns the 1-based indices of a face into 0-based ones, if each names one
/// of `vertex_count` vertices.
pub fn resolve_face(vertex_count: usize, a: usize, b: usize, c: usize) -> (r: Result<
    (usize, usize, usize),
    LoadError,
>)
    ensures
        (1 <= a <= vertex_count && 1 <= b <= vertex_count && 1 <= c <= vertex_count) ==> r == Ok::<
            (usize, usize, usize),
            LoadError,
        >(((a - 1) as usize, (b - 1) as usize, (c - 1) as usize)),
        !(1 <= a <= vertex_count && 1 <= b <= vertex_count && 1 <= c <= vertex_count) ==> r
            == Err::<(usize, usize, usize), LoadError>(LoadError::IndexOutOfRange),
{
    if 1 <= a && a <= vertex_count && 1 <= b && b <= vertex_count && 1 <= c && c <= vertex_count {
        Ok((a - 1, b - 1, c - 1))
    } else {
        Err(LoadError::IndexOutOfRange)
    }
}

} // verus!
