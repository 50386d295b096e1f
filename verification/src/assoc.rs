//! Association-manifest parsing.
//!
//! The manifest is line-oriented plain text.  Blank lines and lines whose
//! first nonblank byte is `#` are skipped; every other line must hold four
//! whitespace-separated fields: depth timestamp, depth path, color timestamp,
//! color path.  Timestamps must have the shape of a decimal number; paths are
//! taken verbatim.  One bad line aborts the whole parse.

use vstd::prelude::*;

use crate::errors::TrackError;

verus! {

/// One association: a depth image and a color image, each with the raw bytes
/// of its capture timestamp, making up one trackable frame.
#[derive(Debug)]
pub struct Association {
    pub depth_timestamp: Vec<u8>,
    pub depth_file_path: Vec<u8>,
    pub color_timestamp: Vec<u8>,
    pub color_file_path: Vec<u8>,
}

/// The mathematical model of one association.
pub struct AssocSpec {
    pub depth_timestamp: Seq<u8>,
    pub depth_file_path: Seq<u8>,
    pub color_timestamp: Seq<u8>,
    pub color_file_path: Seq<u8>,
}

impl View for Association {
    type V = AssocSpec;

    open spec fn view(&self) -> AssocSpec {
        AssocSpec {
            depth_timestamp: self.depth_timestamp@,
            depth_file_path: self.depth_file_path@,
            color_timestamp: self.color_timestamp@,
            color_file_path: self.color_file_path@,
        }
    }
}

/// The models of a sequence of associations.
pub open spec fn assoc_views(v: Seq<Association>) -> Seq<AssocSpec> {
    v.map_values(|a: Association| a@)
}

/// In-line whitespace: space, tab, carriage return.
pub open spec fn is_ws(c: u8) -> bool {
    c == 32 || c == 9 || c == 13
}

pub open spec fn is_digit(c: u8) -> bool {
    48 <= c <= 57
}

/// End of the token starting at `i`: the first whitespace index at or after
/// `i`, or the line's end.
pub open spec fn token_end_at(s: Seq<u8>, i: int) -> int
    decreases s.len() - i,
    when 0 <= i
{
    if i >= s.len() {
        s.len() as int
    } else if is_ws(s[i]) {
        i
    } else {
        token_end_at(s, i + 1)
    }
}

proof fn lemma_token_end_bounds(s: Seq<u8>, i: int)
    requires
        0 <= i <= s.len(),
    ensures
        i <= token_end_at(s, i) <= s.len(),
    decreases s.len() - i,
{
    if i < s.len() && !is_ws(s[i]) {
        lemma_token_end_bounds(s, i + 1);
    }
}

/// The whitespace-separated fields of a line, from index `i` on.
pub open spec fn fields_at(s: Seq<u8>, i: int) -> Seq<Seq<u8>>
    decreases s.len() - i,
    when 0 <= i
{
    if i >= s.len() {
        Seq::empty()
    } else if is_ws(s[i]) {
        fields_at(s, i + 1)
    } else {
        let e0 = token_end_at(s, i);
        let e1 = if e0 > i {
            e0
        } else {
            i + 1
        };
        let e = if e1 > s.len() {
            s.len() as int
        } else {
            e1
        };
        seq![s.subrange(i, e)] + fields_at(s, e)
    }
}

/// The whitespace-separated fields of a line.
pub open spec fn fields(s: Seq<u8>) -> Seq<Seq<u8>> {
    fields_at(s, 0)
}

pub open spec fn count_dots(t: Seq<u8>) -> int
    decreases t.len(),
{
    if t.len() == 0 {
        0
    } else {
        count_dots(t.drop_last()) + if t.last() == 46u8 {
            1int
        } else {
            0int
        }
    }
}

pub open spec fn count_digits(t: Seq<u8>) -> int
    decreases t.len(),
{
    if t.len() == 0 {
        0
    } else {
        count_digits(t.drop_last()) + if is_digit(t.last()) {
            1int
        } else {
            0int
        }
    }
}

/// A timestamp field with its optional leading sign removed.
pub open spec fn decimal_body(t: Seq<u8>) -> Seq<u8> {
    if t.len() > 0 && (t[0] == 43u8 || t[0] == 45u8) {
        t.drop_first()
    } else {
        t
    }
}

/// A timestamp field: an optional sign, then digits with at most one decimal
/// point, holding at least one digit.
pub open spec fn is_decimal(t: Seq<u8>) -> bool {
    &&& decimal_body(t).len() > 0
    &&& forall|k: int|
        0 <= k < decimal_body(t).len() ==> is_digit(#[trigger] decimal_body(t)[k])
            || decimal_body(t)[k] == 46u8
    &&& count_dots(decimal_body(t)) <= 1
    &&& count_digits(decimal_body(t)) >= 1
}

/// What one manifest line means: `None` for a malformed line, `Some(None)`
/// for a blank or comment line, `Some(Some(a))` for an association record.
pub open spec fn spec_parse_line(line: Seq<u8>) -> Option<Option<AssocSpec>> {
    let fs = fields(line);
    if fs.len() == 0 {
        Some(None)
    } else if fs[0][0] == 35u8 {
        Some(None)
    } else if fs.len() == 4 && is_decimal(fs[0]) && is_decimal(fs[2]) {
        Some(
            Some(
                AssocSpec {
                    depth_timestamp: fs[0],
                    depth_file_path: fs[1],
                    color_timestamp: fs[2],
                    color_file_path: fs[3],
                },
            ),
        )
    } else {
        None
    }
}

/// First index at or after `i` holding a line feed, or the text's end.
pub open spec fn line_end_at(b: Seq<u8>, i: int) -> int
    decreases b.len() - i,
    when 0 <= i
{
    if i >= b.len() {
        b.len() as int
    } else if b[i] == 10u8 {
        i
    } else {
        line_end_at(b, i + 1)
    }
}

/// The associations declared by the manifest text from index `i` on, in line
/// order; `None` when some line is malformed.
pub open spec fn spec_parse_at(b: Seq<u8>, i: int) -> Option<Seq<AssocSpec>>
    decreases b.len() - i,
    when 0 <= i
{
    if i >= b.len() {
        Some(Seq::empty())
    } else {
        let e0 = line_end_at(b, i);
        let e = if i <= e0 <= b.len() {
            e0
        } else {
            i
        };
        let nxt = if e + 1 > b.len() {
            b.len() as int
        } else {
            e + 1
        };
        match spec_parse_line(b.subrange(i, e)) {
            None => None,
            Some(rec) => match spec_parse_at(b, nxt) {
                None => None,
                Some(rest) => Some(
                    match rec {
                        Some(a) => seq![a] + rest,
                        None => rest,
                    },
                ),
            },
        }
    }
}

/// The associations declared by the whole manifest text.
pub open spec fn spec_parse(b: Seq<u8>) -> Option<Seq<AssocSpec>> {
    spec_parse_at(b, 0)
}

/// The models of a sequence of byte vectors.
pub open spec fn byte_views(v: Seq<Vec<u8>>) -> Seq<Seq<u8>> {
    v.map_values(|x: Vec<u8>| x@)
}

proof fn lemma_token_end_is(s: Seq<u8>, i: int, e: int)
    requires
        0 <= i <= e <= s.len(),
        forall|k: int| i <= k < e ==> !is_ws(#[trigger] s[k]),
        e == s.len() || is_ws(s[e]),
    ensures
        token_end_at(s, i) == e,
    decreases e - i,
{
    if i < e {
        lemma_token_end_is(s, i + 1, e);
    }
}

proof fn lemma_line_end_is(b: Seq<u8>, i: int, e: int)
    requires
        0 <= i <= e <= b.len(),
        forall|k: int| i <= k < e ==> #[trigger] b[k] != 10u8,
        e == b.len() || b[e] == 10u8,
    ensures
        line_end_at(b, i) == e,
    decreases e - i,
{
    if i < e {
        lemma_line_end_is(b, i + 1, e);
    }
}

proof fn lemma_fields_nonempty(s: Seq<u8>, i: int)
    requires
        0 <= i <= s.len(),
    ensures
        forall|k: int|
            0 <= k < fields_at(s, i).len() ==> #[trigger] fields_at(s, i)[k].len() > 0,
    decreases s.len() - i,
{
    if i >= s.len() {
    } else if is_ws(s[i]) {
        lemma_fields_nonempty(s, i + 1);
        assert(fields_at(s, i) == fields_at(s, i + 1));
        assert forall|k: int| 0 <= k < fields_at(s, i).len() implies #[trigger] fields_at(
            s,
            i,
        )[k].len() > 0 by {
            assert(fields_at(s, i)[k] == fields_at(s, i + 1)[k]);
        }
    } else {
        lemma_token_end_bounds(s, i);
        let e0 = token_end_at(s, i);
        let e1 = if e0 > i {
            e0
        } else {
            i + 1
        };
        let e = if e1 > s.len() {
            s.len() as int
        } else {
            e1
        };
        lemma_fields_nonempty(s, e);
        assert(e > i);
        assert(fields_at(s, i) == seq![s.subrange(i, e)] + fields_at(s, e));
        assert forall|k: int| 0 <= k < fields_at(s, i).len() implies #[trigger] fields_at(
            s,
            i,
        )[k].len() > 0 by {
            if k == 0 {
                assert(fields_at(s, i)[0] == s.subrange(i, e));
            } else {
                assert(fields_at(s, i)[k] == fields_at(s, e)[k - 1]);
            }
        }
    }
}

/// Copies the byte range `[from, to)` of `text` into a fresh vector.
fn copy_range(text: &Vec<u8>, from: usize, to: usize) -> (r: Vec<u8>)
    requires
        from <= to <= text@.len(),
    ensures
        r@ == text@.subrange(from as int, to as int),
{
    let mut out: Vec<u8> = Vec::new();
    let mut k: usize = from;
    while k < to
        invariant
            from <= k <= to <= text@.len(),
            out@ =~= text@.subrange(from as int, k as int),
        decreases to - k,
    {
        out.push(text[k]);
        k += 1;
    }
    out
}

/// Splits the line `text[start..end]` into its whitespace-separated fields.
fn split_fields(text: &Vec<u8>, start: usize, end: usize) -> (r: Vec<Vec<u8>>)
    requires
        start <= end <= text@.len(),
    ensures
        byte_views(r@) == fields(text@.subrange(start as int, end as int)),
{
    let ghost line = text@.subrange(start as int, end as int);
    let n = end - start;
    let mut out: Vec<Vec<u8>> = Vec::new();
    let mut i: usize = 0;
    proof {
        assert(byte_views(out@) + fields_at(line, 0) =~= fields_at(line, 0));
    }
    while i < n
        invariant
            i <= n,
            n == end - start,
            start <= end <= text@.len(),
            line == text@.subrange(start as int, end as int),
            fields(line) == byte_views(out@) + fields_at(line, i as int),
        decreases n - i,
    {
        let c = text[start + i];
        if c == 32 || c == 9 || c == 13 {
            proof {
                assert(line[i as int] == c);
            }
            i += 1;
        } else {
            let mut j = i + 1;
            while j < n && text[start + j] != 32 && text[start + j] != 9 && text[start + j]
                != 13
                invariant
                    i < j <= n,
                    n == end - start,
                    start <= end <= text@.len(),
                    line == text@.subrange(start as int, end as int),
                    forall|k: int| i <= k < j ==> !is_ws(#[trigger] line[k]),
                decreases n - j,
            {
                proof {
                    assert(line[j as int] == text@[start + j]);
                }
                j += 1;
            }
            proof {
                assert(line[i as int] == c);
                lemma_token_end_is(line, i as int, j as int);
            }
            let tok = copy_range(text, start + i, start + j);
            let ghost old_out = out@;
            out.push(tok);
            proof {
                assert(tok@ =~= line.subrange(i as int, j as int));
                assert(byte_views(out@) =~= byte_views(old_out) + seq![
                    line.subrange(i as int, j as int),
                ]);
                assert(fields_at(line, i as int) == seq![
                    line.subrange(i as int, j as int),
                ] + fields_at(line, j as int));
                assert(byte_views(old_out) + (seq![line.subrange(i as int, j as int)]
                    + fields_at(line, j as int)) =~= byte_views(out@) + fields_at(
                    line,
                    j as int,
                ));
            }
            i = j;
        }
    }
    proof {
        assert(byte_views(out@) + fields_at(line, n as int) =~= byte_views(out@));
    }
    out
}

/// Whether a field has the shape of a decimal timestamp.
fn is_decimal_field(t: &Vec<u8>) -> (r: bool)
    ensures
        r == is_decimal(t@),
{
    let n = t.len();
    let start: usize = if n > 0 && (t[0] == 43 || t[0] == 45) {
        1
    } else {
        0
    };
    let ghost body = decimal_body(t@);
    proof {
        assert(body =~= t@.subrange(start as int, n as int));
    }
    if n == start {
        return false;
    }
    let mut dots: usize = 0;
    let mut digits: usize = 0;
    let mut k: usize = start;
    while k < n
        invariant
            start <= k <= n,
            n == t@.len(),
            start == (if t@.len() > 0 && (t@[0] == 43u8 || t@[0] == 45u8) {
                1int
            } else {
                0int
            }),
            body == decimal_body(t@),
            body =~= t@.subrange(start as int, n as int),
            dots == count_dots(body.take(k - start)),
            digits == count_digits(body.take(k - start)),
            dots + digits <= k,
            forall|m: int|
                0 <= m < k - start ==> is_digit(#[trigger] body[m]) || body[m] == 46u8,
        decreases n - k,
    {
        let c = t[k];
        proof {
            assert(decimal_body(t@)[k - start] == c);
            assert(body.take(k - start + 1).drop_last() =~= body.take(k - start));
        }
        if c == 46 {
            dots += 1;
        } else if 48 <= c && c <= 57 {
            digits += 1;
        } else {
            proof {
                assert(0 <= k - start < decimal_body(t@).len());
                assert(decimal_body(t@)[k - start] == c);
                assert(!(is_digit(decimal_body(t@)[k - start]) || decimal_body(t@)[k
                    - start] == 46u8));
            }
            return false;
        }
        k += 1;
    }
    proof {
        assert(body.take(n - start) =~= body);
    }
    dots <= 1 && digits >= 1
}

/// Parses one manifest line: a record, a skipped blank or comment line, or a
/// malformed-line failure.
fn parse_line(text: &Vec<u8>, start: usize, end: usize) -> (r: Result<
    Option<Association>,
    TrackError,
>)
    requires
        start <= end <= text@.len(),
    ensures
        ({
            let lspec = spec_parse_line(text@.subrange(start as int, end as int));
            match r {
                Ok(Some(a)) => lspec == Some(Some(a@)),
                Ok(None) => lspec == Some(None::<AssocSpec>),
                Err(e) => lspec is None && e == TrackError::MalformedAssociationLine,
            }
        }),
{
    let ghost line = text@.subrange(start as int, end as int);
    let mut fs = split_fields(text, start, end);
    proof {
        lemma_fields_nonempty(line, 0);
    }
    if fs.len() == 0 {
        return Ok(None);
    }
    proof {
        assert(byte_views(fs@)[0].len() > 0);
    }
    if fs[0][0] == 35 {
        return Ok(None);
    }
    if fs.len() == 4 {
        let d_ok = is_decimal_field(&fs[0]);
        let c_ok = is_decimal_field(&fs[2]);
        if d_ok && c_ok {
            let depth_timestamp = fs.remove(0);
            let depth_file_path = fs.remove(0);
            let color_timestamp = fs.remove(0);
            let color_file_path = fs.remove(0);
            let a = Association {
                depth_timestamp,
                depth_file_path,
                color_timestamp,
                color_file_path,
            };
            return Ok(Some(a));
        }
    }
    Err(TrackError::MalformedAssociationLine)
}

/// Parses a manifest into its ordered association sequence.  The resulting
/// order is exactly input line order: it is the canonical frame-id space for
/// the rest of the session.  One malformed line fails the whole parse; no
/// partial result is returned.
pub fn parse_associations(text: &Vec<u8>) -> (r: Result<Vec<Association>, TrackError>)
    ensures
        r is Ok <==> spec_parse(text@) is Some,
        r matches Ok(v) ==> spec_parse(text@) == Some(assoc_views(v@)),
        r matches Err(e) ==> e == TrackError::MalformedAssociationLine,
{
    let n = text.len();
    let mut out: Vec<Association> = Vec::new();
    let mut i: usize = 0;
    proof {
        assert(assoc_views(out@) + spec_parse_at(text@, 0).unwrap() =~= spec_parse_at(
            text@,
            0,
        ).unwrap());
    }
    loop
        invariant
            i <= n,
            n == text@.len(),
            match spec_parse_at(text@, i as int) {
                Some(rest) => spec_parse(text@) == Some(assoc_views(out@) + rest),
                None => spec_parse(text@) is None,
            },
        decreases n - i,
    {
        if i == n {
            proof {
                assert(assoc_views(out@) + Seq::<AssocSpec>::empty() =~= assoc_views(
                    out@,
                ));
            }
            return Ok(out);
        }
        let mut e = i;
        while e < n && text[e] != 10
            invariant
                i <= e <= n,
                n == text@.len(),
                forall|k: int| i <= k < e ==> #[trigger] text@[k] != 10u8,
            decreases n - e,
        {
            e += 1;
        }
        proof {
            lemma_line_end_is(text@, i as int, e as int);
        }
        let ghost prev = i as int;
        let ghost old_out = out@;
        let step = parse_line(text, i, e);
        match step {
            Err(err) => {
                return Err(err);
            },
            Ok(None) => {},
            Ok(Some(a)) => {
                out.push(a);
                proof {
                    assert(assoc_views(out@) =~= assoc_views(old_out) + seq![out@.last()@]);
                }
            },
        }
        if e == n {
            i = n;
        } else {
            i = e + 1;
        }
        proof {
            let lspec = spec_parse_line(text@.subrange(prev, e as int));
            match spec_parse_at(text@, i as int) {
                Some(rest) => {
                    match lspec {
                        Some(Some(aspec)) => {
                            assert(spec_parse_at(text@, prev) == Some(seq![aspec] + rest));
                            assert(assoc_views(old_out) + (seq![aspec] + rest)
                                =~= assoc_views(out@) + rest);
                        },
                        _ => {
                            assert(spec_parse_at(text@, prev) == Some(rest));
                        },
                    }
                },
                None => {
                    assert(spec_parse_at(text@, prev) is None);
                },
            }
        }
    }
}

} // verus!
