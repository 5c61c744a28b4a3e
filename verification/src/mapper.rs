//! The text protocol of the external colour mapper: the request record the
//! pipeline writes to the mapper process, and the parsing of the mapper's
//! reply. The process plumbing itself lives outside the library; these
//! functions say exactly which bytes go out and what any reply means.

use vstd::prelude::*;
use crate::canvas::Color;
use crate::error::LowPolyError;
use crate::geometry::Point;

verus! {

/// The decimal digits of a non-negative number, as bytes of text, most
/// significant first.
pub open spec fn dec_bytes(n: int) -> Seq<u8>
    decreases n,
{
    if n < 10 {
        seq![(48 + n) as u8]
    } else {
        dec_bytes(n / 10).push((48 + n % 10) as u8)
    }
}

/// Appends the decimal digits of `n`.
fn push_dec(out: &mut Vec<u8>, n: u32)
    ensures
        final(out)@ == old(out)@ + dec_bytes(n as int),
    decreases n,
{
    if n >= 10 {
        push_dec(out, n / 10);
        out.push((n % 10) as u8 + 48);
        proof {
            assert(out@ =~= old(out)@ + dec_bytes(n as int));
        }
    } else {
        out.push(n as u8 + 48);
        proof {
            assert(out@ =~= old(out)@ + dec_bytes(n as int));
        }
    }
}

/// The request record the external colour mapper receives, exactly: the
/// default colour's three bytes, the six vertex coordinates, and the canvas
/// size, space-separated decimal numbers on three lines, with no trailing
/// newline.
pub open spec fn spec_mapper_request(
    default: Color,
    a: Point,
    b: Point,
    c: Point,
    width: u32,
    height: u32,
) -> Seq<u8> {
    dec_bytes(default.r as int) + seq![32u8] + dec_bytes(default.g as int) + seq![32u8]
        + dec_bytes(default.b as int) + seq![10u8] + dec_bytes(a.x as int) + seq![32u8]
        + dec_bytes(a.y as int) + seq![32u8] + dec_bytes(b.x as int) + seq![32u8] + dec_bytes(
        b.y as int,
    ) + seq![32u8] + dec_bytes(c.x as int) + seq![32u8] + dec_bytes(c.y as int) + seq![10u8]
        + dec_bytes(width as int) + seq![32u8] + dec_bytes(height as int)
}

/// Builds the request record for one triangle.
pub fn mapper_request(
    default: Color,
    a: Point,
    b: Point,
    c: Point,
    width: u32,
    height: u32,
) -> (r: Vec<u8>)
    ensures
        r@ == spec_mapper_request(default, a, b, c, width, height),
{
    let mut out: Vec<u8> = Vec::new();
    push_dec(&mut out, default.r as u32);
    out.push(32);
    push_dec(&mut out, default.g as u32);
    out.push(32);
    push_dec(&mut out, default.b as u32);
    out.push(10);
    push_dec(&mut out, a.x);
    out.push(32);
    push_dec(&mut out, a.y);
    out.push(32);
    push_dec(&mut out, b.x);
    out.push(32);
    push_dec(&mut out, b.y);
    out.push(32);
    push_dec(&mut out, c.x);
    out.push(32);
    push_dec(&mut out, c.y);
    out.push(10);
    push_dec(&mut out, width);
    out.push(32);
    push_dec(&mut out, height);
    proof {
        assert(out@ =~= spec_mapper_request(default, a, b, c, width, height));
    }
    out
}

/// A byte counts as whitespace: space, tab, line feed, vertical tab, form
/// feed or carriage return.
pub open spec fn is_space(b: u8) -> bool {
    b == 32 || (9 <= b <= 13)
}

/// The first line of the mapper's output: the bytes before the first line
/// feed, or all of it if there is none.
pub open spec fn spec_first_line(out: Seq<u8>) -> Seq<u8>
    decreases out.len(),
{
    if out.len() == 0 {
        out
    } else if out[0] == 10 {
        Seq::empty()
    } else {
        seq![out[0]] + spec_first_line(out.drop_first())
    }
}

/// The whitespace-separated tokens of `s`, with `cur` the token begun so
/// far.
pub open spec fn spec_split(s: Seq<u8>, cur: Seq<u8>) -> Seq<Seq<u8>>
    decreases s.len(),
{
    if s.len() == 0 {
        if cur.len() == 0 {
            Seq::empty()
        } else {
            seq![cur]
        }
    } else if is_space(s[0]) {
        if cur.len() == 0 {
            spec_split(s.drop_first(), Seq::empty())
        } else {
            seq![cur] + spec_split(s.drop_first(), Seq::empty())
        }
    } else {
        spec_split(s.drop_first(), cur.push(s[0]))
    }
}

/// The whitespace-separated tokens of a line.
pub open spec fn spec_tokens(s: Seq<u8>) -> Seq<Seq<u8>> {
    spec_split(s, Seq::empty())
}

/// Every byte is a decimal digit.
pub open spec fn spec_digits(s: Seq<u8>) -> bool {
    forall|i: int| 0 <= i < s.len() ==> 48 <= #[trigger] s[i] <= 57
}

/// The number a digit string denotes.
pub open spec fn spec_digits_value(s: Seq<u8>) -> int
    decreases s.len(),
{
    if s.len() == 0 {
        0
    } else {
        spec_digits_value(s.drop_last()) * 10 + (s.last() - 48)
    }
}

/// The token with one leading plus sign stripped, as std's number parsing
/// accepts it.
pub open spec fn spec_token_body(s: Seq<u8>) -> Seq<u8> {
    if s.len() > 0 && s[0] == 43 {
        s.drop_first()
    } else {
        s
    }
}

/// A token denotes a byte value exactly when, after an optional plus sign,
/// it is one or more decimal digits with value at most 255; this is what
/// std's parsing of a `u8` accepts.
pub open spec fn spec_parse_u8(s: Seq<u8>) -> Option<u8> {
    let body = spec_token_body(s);
    if body.len() > 0 && spec_digits(body) && spec_digits_value(body) <= 255 {
        Some(spec_digits_value(body) as u8)
    } else {
        None
    }
}

/// A digit string denotes a non-negative number.
proof fn lemma_digits_value_nonneg(s: Seq<u8>)
    requires
        spec_digits(s),
    ensures
        0 <= spec_digits_value(s),
    decreases s.len(),
{
    if s.len() > 0 {
        assert(spec_digits(s.drop_last()));
        lemma_digits_value_nonneg(s.drop_last());
    }
}

/// A prefix of a digit string never denotes more than the whole.
proof fn lemma_digits_value_take_le(s: Seq<u8>, j: int)
    requires
        spec_digits(s),
        0 <= j <= s.len(),
    ensures
        spec_digits_value(s.take(j)) <= spec_digits_value(s),
    decreases s.len() - j,
{
    if j == s.len() {
        assert(s.take(j) =~= s);
    } else {
        lemma_digits_value_take_le(s, j + 1);
        assert(s.take(j + 1).drop_last() =~= s.take(j));
        assert(s.take(j + 1).last() == s[j]);
        assert(spec_digits(s.take(j)));
        lemma_digits_value_nonneg(s.take(j));
        assert(spec_digits_value(s.take(j + 1)) == spec_digits_value(s.take(j)) * 10 + (s[j]
            - 48));
        assert(spec_digits_value(s.take(j)) <= spec_digits_value(s.take(j)) * 10)
            by (nonlinear_arith)
            requires
                0 <= spec_digits_value(s.take(j)),
        ;
    }
}

/// Parses one token as std's `u8` parsing would.
fn parse_u8_token(tok: &Vec<u8>) -> (r: Option<u8>)
    ensures
        r == spec_parse_u8(tok@),
{
    let ghost body = spec_token_body(tok@);
    let mut i: usize = 0;
    if tok.len() > 0 && tok[0] == 43 {
        i = 1;
    }
    proof {
        assert(body =~= tok@.skip(i as int));
    }
    if i >= tok.len() {
        return None;
    }
    let mut acc: u32 = 0;
    let mut j: usize = i;
    while j < tok.len()
        invariant
            i <= j <= tok@.len(),
            body == spec_token_body(tok@),
            body == tok@.skip(i as int),
            body.len() == tok@.len() - i,
            spec_digits(body.take(j - i)),
            acc == spec_digits_value(body.take(j - i)),
            acc <= 255,
        decreases tok@.len() - j,
    {
        let ch = tok[j];
        proof {
            assert(body[j - i] == tok@[j as int]);
        }
        if ch < 48 || ch > 57 {
            proof {
                assert(!spec_digits(body));
            }
            return None;
        }
        acc = acc * 10 + ((ch - 48) as u32);
        proof {
            assert(body.take(j - i + 1).drop_last() =~= body.take(j - i));
            assert(body.take(j - i + 1).last() == body[j - i]);
            assert(spec_digits(body.take(j - i + 1)));
        }
        if acc > 255 {
            proof {
                if spec_digits(body) {
                    lemma_digits_value_take_le(body, j - i + 1);
                }
            }
            return None;
        }
        j = j + 1;
    }
    proof {
        assert(body.take(j - i) =~= body);
    }
    Some(acc as u8)
}

/// What any reply of the external colour mapper means: the first line must
/// hold exactly three whitespace-separated byte values, the override
/// colour; any other shape is the mapper error.
pub open spec fn spec_parse_response(out: Seq<u8>) -> Result<Color, LowPolyError> {
    let toks = spec_tokens(spec_first_line(out));
    if toks.len() == 3 && spec_parse_u8(toks[0]) is Some && spec_parse_u8(toks[1]) is Some
        && spec_parse_u8(toks[2]) is Some {
        Ok(
            Color {
                r: spec_parse_u8(toks[0])->0,
                g: spec_parse_u8(toks[1])->0,
                b: spec_parse_u8(toks[2])->0,
            },
        )
    } else {
        Err(LowPolyError::MapperError)
    }
}

/// Parses the raw output of the external colour mapper: takes its first
/// line and reads exactly three whitespace-separated byte values from it.
pub fn parse_mapper_response(out: &Vec<u8>) -> (r: Result<Color, LowPolyError>)
    ensures
        r == spec_parse_response(out@),
{
    // extract the first line
    let mut line: Vec<u8> = Vec::new();
    let mut i: usize = 0;
    proof {
        assert(out@.skip(0) =~= out@);
        assert(line@ + spec_first_line(out@) =~= spec_first_line(out@));
    }
    while i < out.len() && out[i] != 10
        invariant
            i <= out@.len(),
            spec_first_line(out@) == line@ + spec_first_line(out@.skip(i as int)),
        decreases out@.len() - i,
    {
        proof {
            let rest = out@.skip(i as int);
            assert(rest[0] == out@[i as int]);
            assert(rest.drop_first() =~= out@.skip(i as int + 1));
        }
        let ghost oldline = line@;
        line.push(out[i]);
        proof {
            let rest = out@.skip(i as int);
            assert(spec_first_line(rest) == seq![rest[0]] + spec_first_line(rest.drop_first()));
            assert(oldline + spec_first_line(rest) =~= line@ + spec_first_line(
                out@.skip(i as int + 1),
            ));
        }
        i = i + 1;
    }
    proof {
        if i < out@.len() {
            assert(out@.skip(i as int)[0] == 10);
            assert(spec_first_line(out@.skip(i as int)) =~= Seq::<u8>::empty());
        }
        assert(line@ =~= spec_first_line(out@));
    }
    // split the line into whitespace-separated tokens
    let mut tokens: Vec<Vec<u8>> = Vec::new();
    let ghost all = spec_tokens(line@);
    let mut cur: Vec<u8> = Vec::new();
    let ghost mut gtoks: Seq<Seq<u8>> = Seq::empty();
    let mut k: usize = 0;
    proof {
        assert(line@.skip(0) =~= line@);
        assert(gtoks + spec_split(line@, Seq::empty()) =~= all);
    }
    while k < line.len()
        invariant
            k <= line@.len(),
            tokens@.len() == gtoks.len(),
            forall|t: int| 0 <= t < gtoks.len() ==> #[trigger] tokens@[t]@ == gtoks[t],
            all == gtoks + spec_split(line@.skip(k as int), cur@),
        decreases line@.len() - k,
    {
        let ghost rest = line@.skip(k as int);
        proof {
            assert(rest[0] == line@[k as int]);
            assert(rest.drop_first() =~= line@.skip(k as int + 1));
        }
        let ch = line[k];
        if ch == 32 || (9 <= ch && ch <= 13) {
            proof {
                assert(is_space(rest[0]));
            }
            if cur.len() > 0 {
                let ghost oldtoks = gtoks;
                let ghost oldcur = cur@;
                tokens.push(cur);
                cur = Vec::new();
                proof {
                    gtoks = oldtoks.push(oldcur);
                    assert(cur@ =~= Seq::<u8>::empty());
                    assert(spec_split(rest, oldcur) == seq![oldcur] + spec_split(
                        rest.drop_first(),
                        Seq::empty(),
                    ));
                    assert(oldtoks + (seq![oldcur] + spec_split(
                        line@.skip(k as int + 1),
                        Seq::empty(),
                    )) =~= gtoks + spec_split(line@.skip(k as int + 1), cur@));
                }
            } else {
                proof {
                    assert(cur@ =~= Seq::<u8>::empty());
                }
            }
        } else {
            let ghost oldcur = cur@;
            cur.push(ch);
            proof {
                assert(!is_space(rest[0]));
                assert(cur@ =~= oldcur.push(rest[0]));
            }
        }
        k = k + 1;
    }
    proof {
        assert(line@.skip(line@.len() as int) =~= Seq::<u8>::empty());
    }
    // close the last token
    if cur.len() > 0 {
        let ghost oldtoks = gtoks;
        let ghost oldcur = cur@;
        tokens.push(cur);
        proof {
            gtoks = oldtoks.push(oldcur);
            assert(oldtoks + seq![oldcur] =~= gtoks);
        }
    }
    proof {
        assert(gtoks =~= all);
    }
    // exactly three byte values
    if tokens.len() != 3 {
        return Err(LowPolyError::MapperError);
    }
    let r0 = parse_u8_token(&tokens[0]);
    let r1 = parse_u8_token(&tokens[1]);
    let r2 = parse_u8_token(&tokens[2]);
    match (r0, r1, r2) {
        (Some(r), Some(g), Some(b)) => Ok(Color { r, g, b }),
        _ => Err(LowPolyError::MapperError),
    }
}

} // verus!
