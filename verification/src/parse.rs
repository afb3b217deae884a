//! The line-oriented scene-text parser.
//!
//! Grammar, per line of ASCII input:
//!
//! - `- <Marker> <junk>` opens a block; the marker's first letter must be
//!   one of `R`, `E`, `L`, `P`, `C` (case-sensitive).
//! - `P, f0, f1, ...` registers the point buffer of the open block.
//! - `C, r, g, b, a` sets its colour.
//! - `V, dx, dy` sets its velocity.
//! - a line that is exactly `#` finalizes and emits the open block.
//! - any other line is ignored.
//!
//! Numeric fields are strict decimals, `digits` or `digits.digits` with an
//! optional sign, read into fixed-point thousandths (further fraction
//! digits are truncated); a field that does not fit the coordinate band is
//! rejected.  At end of input a still-open block that has both its kind
//! and its points is emitted as if by `#`; an incomplete one is discarded.
//! Any malformed field or unrecognized shape marker fails the whole parse:
//! no partial scene is accepted.

use vstd::prelude::*;

use crate::fx::{Fx, FX_LIMIT};
use crate::shapes::{Block, BlockBuilder, Color, SceneError, ShapeKind};

verus! {

/// The index of the first occurrence of `d` in `s`, or `s.len()`.
pub open spec fn first_byte(s: Seq<u8>, d: u8) -> int
    decreases s.len(),
{
    if s.len() == 0 {
        0
    } else if s[0] == d {
        0
    } else {
        1 + first_byte(s.skip(1), d)
    }
}

/// What `first_byte` finds: the earliest position of `d`, if any.
pub proof fn lemma_first_byte_props(s: Seq<u8>, d: u8)
    ensures
        0 <= first_byte(s, d) <= s.len(),
        first_byte(s, d) < s.len() ==> s[first_byte(s, d)] == d,
        forall|j: int| 0 <= j < first_byte(s, d) ==> s[j] != d,
    decreases s.len(),
{
    if s.len() > 0 && s[0] != d {
        lemma_first_byte_props(s.skip(1), d);
        assert forall|j: int| 0 <= j < first_byte(s, d) implies s[j] != d by {
            if j > 0 {
                assert(s.skip(1)[j - 1] == s[j]);
            }
        }
    }
}

/// A line with its trailing carriage return removed, if it has one.
pub open spec fn strip_cr(s: Seq<u8>) -> Seq<u8> {
    if s.len() > 0 && s.last() == 13 {
        s.drop_last()
    } else {
        s
    }
}

/// The lines of a byte text, split at newlines, each stripped of one
/// trailing carriage return; a trailing newline yields no empty line.
pub open spec fn lines_of(s: Seq<u8>) -> Seq<Seq<u8>>
    decreases s.len(),
    via lines_of_decreases
{
    if s.len() == 0 {
        Seq::empty()
    } else {
        let i = first_byte(s, 10);
        if i == s.len() {
            seq![strip_cr(s)]
        } else {
            seq![strip_cr(s.take(i))] + lines_of(s.skip(i + 1))
        }
    }
}

#[via_fn]
proof fn lines_of_decreases(s: Seq<u8>) {
    lemma_first_byte_props(s, 10);
}

/// The comma-separated fields of a line; empty fields are kept, and a
/// line always has at least one field.
pub open spec fn fields_of(s: Seq<u8>) -> Seq<Seq<u8>>
    decreases s.len(),
    via fields_of_decreases
{
    let i = first_byte(s, 44);
    if i == s.len() {
        seq![s]
    } else {
        seq![s.take(i)] + fields_of(s.skip(i + 1))
    }
}

#[via_fn]
proof fn fields_of_decreases(s: Seq<u8>) {
    lemma_first_byte_props(s, 44);
}

/// Whether `b` is a space, tab or carriage return.
pub open spec fn is_space(b: u8) -> bool {
    b == 32 || b == 9 || b == 13
}

/// `s` without leading whitespace.
pub open spec fn trim_start_sp(s: Seq<u8>) -> Seq<u8>
    decreases s.len(),
{
    if s.len() == 0 {
        s
    } else if is_space(s[0]) {
        trim_start_sp(s.skip(1))
    } else {
        s
    }
}

/// `s` without trailing whitespace.
pub open spec fn trim_end_sp(s: Seq<u8>) -> Seq<u8>
    decreases s.len(),
{
    if s.len() == 0 {
        s
    } else if is_space(s.last()) {
        trim_end_sp(s.drop_last())
    } else {
        s
    }
}

/// `s` without leading or trailing whitespace.
pub open spec fn trim_sp(s: Seq<u8>) -> Seq<u8> {
    trim_end_sp(trim_start_sp(s))
}

/// Whether `b` is a decimal digit.
pub open spec fn is_digit(b: u8) -> bool {
    48 <= b <= 57
}

/// Whether every byte of `s` is a decimal digit.
pub open spec fn all_digits(s: Seq<u8>) -> bool {
    forall|j: int| 0 <= j < s.len() ==> is_digit(#[trigger] s[j])
}

/// The value of a digit string read most significant first.
pub open spec fn digits_val(s: Seq<u8>) -> int
    decreases s.len(),
{
    if s.len() == 0 {
        0
    } else {
        digits_val(s.drop_last()) * 10 + (s.last() - 48)
    }
}

/// A digit string has a nonnegative value, no smaller than the value of
/// any of its prefixes.
pub proof fn lemma_digits_val_prefix(s: Seq<u8>, k: int)
    requires
        all_digits(s),
        0 <= k <= s.len(),
    ensures
        digits_val(s) >= digits_val(s.take(k)) >= 0,
    decreases s.len() - k,
{
    lemma_digits_val_nonneg(s.take(k));
    if k < s.len() {
        assert(s.take(k + 1).drop_last() =~= s.take(k));
        assert(digits_val(s.take(k + 1)) == digits_val(s.take(k)) * 10 + (s[k] - 48));
        lemma_digits_val_nonneg(s.take(k));
        lemma_digits_val_prefix(s, k + 1);
        assert(digits_val(s.take(k)) * 10 >= digits_val(s.take(k))) by (nonlinear_arith)
            requires
                digits_val(s.take(k)) >= 0,
        ;
    } else {
        assert(s.take(k) =~= s);
    }
}

/// A digit string's value is nonnegative.
pub proof fn lemma_digits_val_nonneg(s: Seq<u8>)
    requires
        all_digits(s),
    ensures
        digits_val(s) >= 0,
    decreases s.len(),
{
    if s.len() > 0 {
        assert(all_digits(s.drop_last()));
        lemma_digits_val_nonneg(s.drop_last());
        assert(digits_val(s.drop_last()) * 10 >= 0) by (nonlinear_arith)
            requires
                digits_val(s.drop_last()) >= 0,
        ;
    }
}

/// The thousandths contributed by a fraction-digit string: its first
/// three digits, shorter strings padded with zeros.
pub open spec fn frac3_val(s: Seq<u8>) -> int {
    if s.len() >= 3 {
        digits_val(s.take(3))
    } else if s.len() == 2 {
        digits_val(s) * 10
    } else if s.len() == 1 {
        digits_val(s) * 100
    } else {
        0
    }
}

/// The fixed-point reading of a trimmed numeric field: an optional sign,
/// a nonempty digit string, and an optional nonempty fraction, in
/// thousandths; values outside the coordinate band are rejected.
pub open spec fn num_spec(s: Seq<u8>) -> Result<int, SceneError> {
    let signed = s.len() > 0 && (s[0] == 43 || s[0] == 45);
    let neg = s.len() > 0 && s[0] == 45;
    let t = if signed {
        s.skip(1)
    } else {
        s
    };
    let dot = first_byte(t, 46);
    let ip = t.take(dot);
    let fp = t.skip(dot + 1);
    if ip.len() == 0 || !all_digits(ip) {
        Err(SceneError::MalformedNumber)
    } else if dot < t.len() && (fp.len() == 0 || !all_digits(fp)) {
        Err(SceneError::MalformedNumber)
    } else {
        let mag = digits_val(ip) * 1000 + if dot < t.len() {
            frac3_val(fp)
        } else {
            0
        };
        if mag > FX_LIMIT {
            Err(SceneError::NumberOutOfRange)
        } else if neg {
            Ok(-mag)
        } else {
            Ok(mag)
        }
    }
}

/// The values of the numeric fields after the tag field, first failure
/// first.
pub open spec fn parse_fields_spec(fields: Seq<Seq<u8>>) -> Result<Seq<Fx>, SceneError>
    decreases fields.len(),
{
    if fields.len() == 0 {
        Ok(Seq::empty())
    } else {
        match num_spec(trim_sp(fields[0])) {
            Err(e) => Err(e),
            Ok(v) => match parse_fields_spec(fields.skip(1)) {
                Err(e) => Err(e),
                Ok(vs) => Ok(seq![Fx(v as i64)] + vs),
            },
        }
    }
}

/// The parser's running state: the open builder, the blocks emitted so
/// far, the point buffers registered so far, and the index base they
/// started at.
pub struct ParseState {
    pub b: BlockBuilder,
    pub blocks: Seq<Block>,
    pub regs: Seq<Seq<Fx>>,
    pub base: int,
}

/// What one scene line does to the parser state.
pub open spec fn line_step(st: ParseState, line: Seq<u8>) -> Result<ParseState, SceneError> {
    if line.len() > 0 && line[0] == 45 {
        let rest = trim_sp(line.skip(1));
        if rest.len() > 0 && BlockBuilder::kind_of_marker(rest[0]) is Some {
            Ok(
                ParseState {
                    b: BlockBuilder::marker_builder(BlockBuilder::kind_of_marker(rest[0])->0),
                    ..st
                },
            )
        } else {
            Err(SceneError::InvalidShape)
        }
    } else if line == seq![35u8] {
        match st.b.build_spec() {
            Err(e) => Err(e),
            Ok(blk) => Ok(
                ParseState { b: BlockBuilder::empty_spec(), blocks: st.blocks.push(blk), ..st },
            ),
        }
    } else {
        let fs = fields_of(line);
        let tag = trim_sp(fs[0]);
        if tag == seq![80u8] {
            match parse_fields_spec(fs.skip(1)) {
                Err(e) => Err(e),
                Ok(vs) => Ok(
                    ParseState {
                        b: BlockBuilder {
                            index: Some((st.base + st.regs.len()) as usize),
                            ..st.b
                        },
                        regs: st.regs.push(vs),
                        ..st
                    },
                ),
            }
        } else if tag == seq![67u8] {
            match parse_fields_spec(fs.skip(1)) {
                Err(e) => Err(e),
                Ok(vs) => if vs.len() < 4 {
                    Err(SceneError::ShortColor)
                } else {
                    Ok(
                        ParseState {
                            b: BlockBuilder {
                                block: Block {
                                    color: Color { r: vs[0], g: vs[1], b: vs[2], a: vs[3] },
                                    ..st.b.block
                                },
                                ..st.b
                            },
                            ..st
                        },
                    )
                },
            }
        } else if tag == seq![86u8] {
            match parse_fields_spec(fs.skip(1)) {
                Err(e) => Err(e),
                Ok(vs) => if vs.len() < 2 {
                    Err(SceneError::ShortVelocity)
                } else {
                    Ok(
                        ParseState {
                            b: BlockBuilder {
                                block: Block { dx: vs[0], dy: vs[1], ..st.b.block },
                                ..st.b
                            },
                            ..st
                        },
                    )
                },
            }
        } else {
            Ok(st)
        }
    }
}

/// The state after running the lines in order, with the state reached
/// and the first error, if any; an erroneous line leaves the state as it
/// stood before that line.
pub open spec fn run_lines(lines: Seq<Seq<u8>>, st: ParseState) -> (ParseState, Option<
    SceneError,
>)
    decreases lines.len(),
{
    if lines.len() == 0 {
        (st, None)
    } else {
        match line_step(st, lines[0]) {
            Err(e) => (st, Some(e)),
            Ok(st2) => run_lines(lines.skip(1), st2),
        }
    }
}

/// The blocks a fully-run parse emits: those closed by `#`, plus a
/// trailing open block that has both its kind and its points.
pub open spec fn finish_blocks(st: ParseState) -> Seq<Block> {
    if st.b.complete() {
        st.blocks.push(st.b.build_spec()->Ok_0)
    } else {
        st.blocks
    }
}

/// The initial parser state over a point-buffer collection that already
/// holds `base` buffers.
pub open spec fn init_state(base: int) -> ParseState {
    ParseState { b: BlockBuilder::empty_spec(), blocks: Seq::empty(), regs: Seq::empty(), base }
}

/// The complete reading of a scene text against a collection with `base`
/// buffers already registered.
pub open spec fn parse_spec(s: Seq<u8>, base: int) -> (ParseState, Option<SceneError>) {
    run_lines(lines_of(s), init_state(base))
}

/// Scans for `d` in `s` from `from`; the returned position is the first
/// occurrence at or after `from`, or the length.
fn find_byte(s: &[u8], from: usize, d: u8) -> (r: usize)
    requires
        from <= s@.len(),
    ensures
        from <= r <= s@.len(),
        r < s@.len() ==> s@[r as int] == d,
        forall|j: int| from <= j < r ==> s@[j] != d,
{
    let mut k = from;
    while k < s.len()
        invariant
            from <= k <= s@.len(),
            forall|j: int| from <= j < k ==> s@[j] != d,
        decreases s@.len() - k,
    {
        if s[k] == d {
            return k;
        }
        k = k + 1;
    }
    k
}

/// Copies `s[a..b]`, dropping one trailing carriage return.
fn copy_line(s: &[u8], a: usize, b: usize) -> (r: Vec<u8>)
    requires
        a <= b <= s@.len(),
    ensures
        r@ == strip_cr(s@.subrange(a as int, b as int)),
{
    let e = if b > a && s[b - 1] == 13 {
        b - 1
    } else {
        b
    };
    let mut out: Vec<u8> = Vec::new();
    let mut k = a;
    while k < e
        invariant
            a <= k <= e <= s@.len(),
            out@ == s@.subrange(a as int, k as int),
        decreases e - k,
    {
        out.push(s[k]);
        proof {
            assert(out@ =~= s@.subrange(a as int, k as int + 1));
        }
        k = k + 1;
    }
    proof {
        if b > a && s@[b as int - 1] == 13 {
            assert(s@.subrange(a as int, b as int).last() == s@[b as int - 1]);
            assert(out@ =~= s@.subrange(a as int, b as int).drop_last());
        } else {
            assert(out@ =~= s@.subrange(a as int, b as int));
            if b > a {
                assert(s@.subrange(a as int, b as int).last() == s@[b as int - 1]);
            }
        }
    }
    out
}

/// Splits a byte text into its lines.
fn split_lines(s: &[u8]) -> (r: Vec<Vec<u8>>)
    ensures
        r@.len() == lines_of(s@).len(),
        forall|i: int| 0 <= i < r@.len() ==> (#[trigger] r@[i])@ == lines_of(s@)[i],
{
    let mut out: Vec<Vec<u8>> = Vec::new();
    let mut pos: usize = 0;
    proof {
        assert(s@.skip(0) =~= s@);
        assert(Seq::new(out@.len(), |i: int| out@[i]@) + lines_of(s@) =~= lines_of(s@));
    }
    while pos < s.len()
        invariant
            pos <= s@.len(),
            lines_of(s@) == Seq::new(out@.len(), |i: int| out@[i]@) + lines_of(
                s@.skip(pos as int),
            ),
        decreases s@.len() - pos,
    {
        let j = find_byte(s, pos, 10);
        let line = copy_line(s, pos, j);
        let ghost rem = s@.skip(pos as int);
        proof {
            lemma_first_byte_props(rem, 10);
            assert(rem.take(j - pos) =~= s@.subrange(pos as int, j as int));
            assert forall|jj: int| 0 <= jj < j - pos implies rem[jj] != 10 by {
                assert(rem[jj] == s@[pos + jj]);
            }
            if j < s@.len() {
                assert(rem[j - pos] == s@[j as int]);
            }
            assert(first_byte(rem, 10) == j - pos);
        }
        out.push(line);
        if j < s.len() {
            proof {
                assert(rem.skip(j - pos + 1) =~= s@.skip(j as int + 1));
                assert(lines_of(rem) == seq![strip_cr(rem.take(j - pos))] + lines_of(
                    s@.skip(j as int + 1),
                ));
                assert(Seq::new(out@.len(), |i: int| out@[i]@) =~= Seq::new(
                    (out@.len() - 1) as nat,
                    |i: int| out@[i]@,
                ).push(line@));
                assert(Seq::new((out@.len() - 1) as nat, |i: int| out@[i]@).push(line@) + lines_of(
                    s@.skip(j as int + 1),
                ) =~= Seq::new((out@.len() - 1) as nat, |i: int| out@[i]@) + (seq![line@] + lines_of(
                    s@.skip(j as int + 1),
                )));
            }
            pos = j + 1;
        } else {
            proof {
                assert(rem.take(j - pos) =~= rem);
                assert(lines_of(rem) == seq![strip_cr(rem)]);
                assert(s@.skip(s@.len() as int) =~= Seq::<u8>::empty());
                assert(Seq::new(out@.len(), |i: int| out@[i]@) =~= Seq::new(
                    (out@.len() - 1) as nat,
                    |i: int| out@[i]@,
                ).push(line@));
                assert(Seq::new((out@.len() - 1) as nat, |i: int| out@[i]@).push(line@) + lines_of(
                    s@.skip(s@.len() as int),
                ) =~= Seq::new((out@.len() - 1) as nat, |i: int| out@[i]@) + seq![line@]);
            }
            pos = s.len();
        }
    }
    proof {
        assert(lines_of(s@.skip(pos as int)) =~= Seq::<Seq<u8>>::empty()) by {
            assert(s@.skip(pos as int) =~= Seq::<u8>::empty());
        }
        assert(lines_of(s@) =~= Seq::new(out@.len(), |i: int| out@[i]@));
    }
    out
}

/// Splits a line into its comma-separated fields.
fn split_fields(line: &Vec<u8>) -> (r: Vec<Vec<u8>>)
    ensures
        r@.len() == fields_of(line@).len(),
        r@.len() >= 1,
        forall|i: int| 0 <= i < r@.len() ==> (#[trigger] r@[i])@ == fields_of(line@)[i],
{
    let s = line.as_slice();
    let mut out: Vec<Vec<u8>> = Vec::new();
    let mut pos: usize = 0;
    proof {
        assert(s@.skip(0) =~= s@);
        assert(Seq::new(out@.len(), |i: int| out@[i]@) + fields_of(s@) =~= fields_of(s@));
    }
    loop
        invariant
            pos <= s@.len(),
            s@ == line@,
            fields_of(line@) == Seq::new(out@.len(), |i: int| out@[i]@) + fields_of(
                s@.skip(pos as int),
            ),
        decreases s@.len() - pos + 1,
    {
        let j = find_byte(s, pos, 44);
        let mut field: Vec<u8> = Vec::new();
        let mut k = pos;
        while k < j
            invariant
                pos <= k <= j <= s@.len(),
                field@ == s@.subrange(pos as int, k as int),
            decreases j - k,
        {
            field.push(s[k]);
            proof {
                assert(field@ =~= s@.subrange(pos as int, k as int + 1));
            }
            k = k + 1;
        }
        let ghost rem = s@.skip(pos as int);
        proof {
            lemma_first_byte_props(rem, 44);
            assert(rem.take(j - pos) =~= s@.subrange(pos as int, j as int));
            assert forall|jj: int| 0 <= jj < j - pos implies rem[jj] != 44 by {
                assert(rem[jj] == s@[pos + jj]);
            }
            if j < s@.len() {
                assert(rem[j - pos] == s@[j as int]);
            }
            assert(first_byte(rem, 44) == j - pos);
        }
        out.push(field);
        if j < s.len() {
            proof {
                assert(rem.skip(j - pos + 1) =~= s@.skip(j as int + 1));
                assert(fields_of(rem) == seq![rem.take(j - pos)] + fields_of(
                    s@.skip(j as int + 1),
                ));
                assert(Seq::new(out@.len(), |i: int| out@[i]@) =~= Seq::new(
                    (out@.len() - 1) as nat,
                    |i: int| out@[i]@,
                ).push(s@.subrange(pos as int, j as int)));
                assert(Seq::new((out@.len() - 1) as nat, |i: int| out@[i]@).push(
                    s@.subrange(pos as int, j as int),
                ) + fields_of(s@.skip(j as int + 1)) =~= Seq::new(
                    (out@.len() - 1) as nat,
                    |i: int| out@[i]@,
                ) + (seq![rem.take(j - pos)] + fields_of(s@.skip(j as int + 1))));
            }
            pos = j + 1;
        } else {
            proof {
                assert(rem.take(j - pos) =~= rem);
                assert(fields_of(rem) == seq![rem]);
                assert(Seq::new(out@.len(), |i: int| out@[i]@) =~= Seq::new(
                    (out@.len() - 1) as nat,
                    |i: int| out@[i]@,
                ).push(rem));
                assert(Seq::new((out@.len() - 1) as nat, |i: int| out@[i]@).push(rem) =~= Seq::new(
                    (out@.len() - 1) as nat,
                    |i: int| out@[i]@,
                ) + seq![rem]);
                assert(fields_of(line@) =~= Seq::new(out@.len(), |i: int| out@[i]@));
            }
            return out;
        }
    }
}

/// Trims leading and trailing whitespace from a byte field.
fn trim_bytes(s: &Vec<u8>) -> (r: Vec<u8>)
    ensures
        r@ == trim_sp(s@),
{
    let n = s.len();
    let mut a: usize = 0;
    proof {
        assert(s@.skip(0) =~= s@);
    }
    while a < n && (s[a] == 32 || s[a] == 9 || s[a] == 13)
        invariant
            a <= n,
            n == s@.len(),
            trim_start_sp(s@) == trim_start_sp(s@.skip(a as int)),
        decreases n - a,
    {
        proof {
            assert(s@.skip(a as int).skip(1) =~= s@.skip(a as int + 1));
        }
        a = a + 1;
    }
    proof {
        if a < n {
            assert(trim_start_sp(s@.skip(a as int)) == s@.skip(a as int));
        } else {
            assert(s@.skip(a as int) =~= Seq::<u8>::empty());
        }
    }
    let mut b: usize = n;
    while b > a && (s[b - 1] == 32 || s[b - 1] == 9 || s[b - 1] == 13)
        invariant
            a <= b <= n,
            n == s@.len(),
            trim_start_sp(s@) == s@.subrange(a as int, n as int),
            trim_end_sp(s@.subrange(a as int, n as int)) == trim_end_sp(
                s@.subrange(a as int, b as int),
            ),
        decreases b,
    {
        proof {
            let cur = s@.subrange(a as int, b as int);
            assert(cur.last() == s@[b as int - 1]);
            assert(cur.drop_last() =~= s@.subrange(a as int, b as int - 1));
        }
        b = b - 1;
    }
    proof {
        let cur = s@.subrange(a as int, b as int);
        if b > a {
            assert(cur.last() == s@[b as int - 1]);
            assert(trim_end_sp(cur) == cur);
        } else {
            assert(cur =~= Seq::<u8>::empty());
        }
    }
    let mut out: Vec<u8> = Vec::new();
    let mut k = a;
    while k < b
        invariant
            a <= k <= b <= n,
            n == s@.len(),
            out@ == s@.subrange(a as int, k as int),
        decreases b - k,
    {
        out.push(s[k]);
        proof {
            assert(out@ =~= s@.subrange(a as int, k as int + 1));
        }
        k = k + 1;
    }
    proof {
        assert(out@ =~= s@.subrange(a as int, b as int));
    }
    out
}

/// Copies `v[a..]`.
fn copy_skip(v: &Vec<u8>, a: usize) -> (r: Vec<u8>)
    requires
        a <= v@.len(),
    ensures
        r@ == v@.skip(a as int),
{
    let mut out: Vec<u8> = Vec::new();
    let mut k = a;
    while k < v.len()
        invariant
            a <= k <= v@.len(),
            out@ == v@.subrange(a as int, k as int),
        decreases v@.len() - k,
    {
        out.push(v[k]);
        proof {
            assert(out@ =~= v@.subrange(a as int, k as int + 1));
        }
        k = k + 1;
    }
    proof {
        assert(out@ =~= v@.skip(a as int));
    }
    out
}

/// Reads one trimmed numeric field into fixed-point thousandths.
pub fn parse_fx(s: &Vec<u8>) -> (r: Result<Fx, SceneError>)
    ensures
        match num_spec(s@) {
            Ok(v) => r is Ok && r->Ok_0@ == v && r->Ok_0.in_range(),
            Err(e) => r == Result::<Fx, SceneError>::Err(e),
        },
{
    let n = s.len();
    let signed = n > 0 && (s[0] == 43 || s[0] == 45);
    let neg = n > 0 && s[0] == 45;
    let start: usize = if signed {
        1
    } else {
        0
    };
    let ghost t = s@.skip(start as int);
    proof {
        assert(s@.skip(0) =~= s@);
    }
    let mut i = start;
    let mut acc: i64 = 0;
    let mut over = false;
    while i < n && 48 <= s[i] && s[i] <= 57
        invariant
            start <= i <= n,
            n == s@.len(),
            start <= 1,
            t == s@.skip(start as int),
            all_digits(t.take(i - start)),
            !over ==> acc == digits_val(t.take(i - start)) && 0 <= acc <= 1_000_000,
            over ==> digits_val(t.take(i - start)) > 1_000_000,
        decreases n - i,
    {
        let d = s[i] - 48;
        proof {
            assert(t.take(i - start + 1).drop_last() =~= t.take(i - start));
            assert(t.take(i - start + 1).last() == t[i - start]);
            assert(t[i - start] == s@[i as int]);
        }
        if !over {
            let acc2 = acc * 10 + (d as i64);
            if acc2 > 1_000_000 {
                over = true;
                proof {
                    assert(digits_val(t.take(i - start + 1)) == acc * 10 + (s@[i as int] - 48));
                }
            }
            acc = acc2;
        } else {
            proof {
                let prev = digits_val(t.take(i - start));
                assert(digits_val(t.take(i - start + 1)) == prev * 10 + (t[i - start] - 48));
                assert(prev * 10 > 10_000_000) by (nonlinear_arith)
                    requires
                        prev > 1_000_000,
                ;
            }
        }
        i = i + 1;
    }
    proof {
        lemma_first_byte_props(t, 46);
    }
    if i == start {
        proof {
            let dot = first_byte(t, 46);
            if t.len() > 0 && t[0] != 46 {
                assert(dot > 0);
                assert(t.take(dot)[0] == t[0]);
                assert(t[0] == s@[start as int]);
                assert(!is_digit(t[0]));
                assert(!all_digits(t.take(dot)));
            }
        }
        return Err(SceneError::MalformedNumber);
    }
    let ghost dot = first_byte(t, 46);
    let ghost ip = t.take(dot);
    if i == n {
        proof {
            assert forall|j: int| 0 <= j < t.len() implies t[j] != 46 by {
                assert(is_digit(t.take(i - start)[j]));
            }
            assert(dot == t.len());
            assert(ip =~= t.take(i - start));
        }
        if over {
            proof {
                assert(digits_val(ip) * 1000 > FX_LIMIT) by (nonlinear_arith)
                    requires
                        digits_val(ip) > 1_000_000,
                ;
            }
            return Err(SceneError::NumberOutOfRange);
        }
        let v = acc * 1000;
        if neg {
            return Ok(Fx(-v));
        } else {
            return Ok(Fx(v));
        }
    }
    if s[i] != 46 {
        proof {
            assert(t[i - start] == s@[i as int]);
            assert forall|j: int| 0 <= j <= i - start implies t[j] != 46 by {
                if j < i - start {
                    assert(is_digit(t.take(i - start)[j]));
                }
            }
            assert(dot > i - start);
            assert(ip[i - start] == t[i - start]);
            assert(!all_digits(ip));
        }
        return Err(SceneError::MalformedNumber);
    }
    proof {
        assert(t[i - start] == s@[i as int]);
        assert forall|j: int| 0 <= j < i - start implies t[j] != 46 by {
            assert(is_digit(t.take(i - start)[j]));
        }
        if dot < i - start {
            assert(t[dot] == 46);
            assert(false);
        }
        assert(dot == i - start);
        assert(ip =~= t.take(i - start));
    }
    let ghost fp = t.skip(dot + 1);
    proof {
        assert(fp =~= s@.skip(i as int + 1));
    }
    let mut j = i + 1;
    let mut facc: i64 = 0;
    let mut fcnt: usize = 0;
    while j < n && 48 <= s[j] && s[j] <= 57
        invariant
            i + 1 <= j <= n,
            n == s@.len(),
            start <= i < n,
            fp == s@.skip(i as int + 1),
            all_digits(fp.take(j - i - 1)),
            fcnt == if j - i - 1 <= 3 {
                j - i - 1
            } else {
                3
            },
            facc == digits_val(fp.take(fcnt as int)),
            0 <= facc,
            fcnt == 0 ==> facc == 0,
            fcnt == 1 ==> facc <= 9,
            fcnt == 2 ==> facc <= 99,
            fcnt == 3 ==> facc <= 999,
        decreases n - j,
    {
        proof {
            assert(fp.take(j - i) =~= fp.take(j - i - 1).push(s@[j as int]));
            assert(fp.take(j - i).drop_last() =~= fp.take(j - i - 1));
        }
        if fcnt < 3 {
            let d = s[j] - 48;
            proof {
                assert(fp.take(fcnt as int + 1).drop_last() =~= fp.take(fcnt as int));
                assert(fp.take(fcnt as int + 1).last() == fp[fcnt as int]);
                assert(fp[fcnt as int] == s@[j as int]);
            }
            facc = facc * 10 + (d as i64);
            fcnt = fcnt + 1;
        }
        j = j + 1;
    }
    if j == i + 1 || j < n {
        proof {
            if j < n {
                assert(fp[j - i - 1] == s@[j as int]);
                assert(!is_digit(fp[j - i - 1]));
            } else {
                assert(fp.len() == 0);
            }
        }
        return Err(SceneError::MalformedNumber);
    }
    proof {
        assert(fp.take(fp.len() as int) =~= fp);
        if fp.len() >= 3 {
            assert(fcnt == 3);
        } else {
            assert(fcnt == fp.len());
            assert(fp.take(fcnt as int) =~= fp);
        }
    }
    let frac = if fcnt == 3 {
        facc
    } else if fcnt == 2 {
        facc * 10
    } else {
        facc * 100
    };
    if over {
        proof {
            assert(digits_val(ip) * 1000 > FX_LIMIT) by (nonlinear_arith)
                requires
                    digits_val(ip) > 1_000_000,
            ;
            lemma_digits_val_nonneg(fp);
            assert(frac3_val(fp) >= 0) by {
                if fp.len() >= 3 {
                    lemma_digits_val_prefix(fp, 3);
                    lemma_digits_val_nonneg(fp.take(3));
                } else {
                    assert(digits_val(fp) * 10 >= 0 && digits_val(fp) * 100 >= 0)
                        by (nonlinear_arith)
                        requires
                            digits_val(fp) >= 0,
                    ;
                }
            }
        }
        return Err(SceneError::NumberOutOfRange);
    }
    let v = acc * 1000 + frac;
    if v > FX_LIMIT {
        return Err(SceneError::NumberOutOfRange);
    }
    if neg {
        Ok(Fx(-v))
    } else {
        Ok(Fx(v))
    }
}

/// Reads the numeric fields after the tag field of a scene data line.
pub fn parse_fx_list(fields: &Vec<Vec<u8>>) -> (r: Result<Vec<Fx>, SceneError>)
    requires
        fields@.len() >= 1,
    ensures
        match parse_fields_spec(Seq::new(fields@.len(), |i: int| fields@[i]@).skip(1)) {
            Ok(vs) => {
                &&& r is Ok
                &&& r->Ok_0@ == vs
                &&& forall|k: int| 0 <= k < vs.len() ==> (#[trigger] vs[k]).in_range()
            },
            Err(e) => r == Result::<Vec<Fx>, SceneError>::Err(e),
        },
{
    let ghost fv = Seq::new(fields@.len(), |i: int| fields@[i]@);
    let mut out: Vec<Fx> = Vec::new();
    let mut k: usize = 1;
    while k < fields.len()
        invariant
            1 <= k <= fields@.len(),
            fv == Seq::new(fields@.len(), |i: int| fields@[i]@),
            forall|q: int| 0 <= q < out@.len() ==> (#[trigger] out@[q]).in_range(),
            match parse_fields_spec(fv.skip(k as int)) {
                Ok(rest) => parse_fields_spec(fv.skip(1)) == Ok::<Seq<Fx>, SceneError>(
                    out@ + rest,
                ),
                Err(e) => parse_fields_spec(fv.skip(1)) == Err::<Seq<Fx>, SceneError>(e),
            },
        decreases fields@.len() - k,
    {
        let tr = trim_bytes(&fields[k]);
        let ghost before = out@;
        proof {
            assert(fv.skip(k as int)[0] == fv[k as int]);
            assert(fv[k as int] == fields@[k as int]@);
            assert(fv.skip(k as int).skip(1) =~= fv.skip(k as int + 1));
        }
        match parse_fx(&tr) {
            Ok(f) => {
                out.push(f);
                proof {
                    match parse_fields_spec(fv.skip(k as int + 1)) {
                        Ok(rest) => {
                            assert(before + (seq![f] + rest) =~= out@ + rest);
                        },
                        Err(_) => {},
                    }
                }
            },
            Err(e) => {
                return Err(e);
            },
        }
        k = k + 1;
    }
    proof {
        assert(fv.skip(fields@.len() as int) =~= Seq::<Seq<u8>>::empty());
        assert(out@ + Seq::<Fx>::empty() =~= out@);
    }
    Ok(out)
}

/// The registered buffers a collection holds beyond its first `base`
/// entries.
pub open spec fn regs_view(pl: Seq<Vec<Fx>>, base: int) -> Seq<Seq<Fx>> {
    Seq::new((pl.len() - base) as nat, |k: int| pl[base + k]@)
}

/// Parses a whole scene text, registering every point buffer it reads
/// into `point_list` and returning the blocks the text emits.
///
/// The scene is read line by line against `parse_spec`; the first
/// malformed field, unrecognized shape marker or incomplete `#` emission
/// fails the parse, and no block of a failed parse is returned.
pub fn parse_block_list(contents: &[u8], point_list: &mut Vec<Vec<Fx>>) -> (r: Result<
    Vec<Block>,
    SceneError,
>)
    ensures
        ({
            let (stf, err) = parse_spec(contents@, old(point_list)@.len() as int);
            &&& final(point_list)@.len() == old(point_list)@.len() + stf.regs.len()
            &&& forall|k: int|
                0 <= k < old(point_list)@.len() ==> final(point_list)@[k] == old(point_list)@[k]
            &&& forall|k: int|
                0 <= k < stf.regs.len() ==> (#[trigger] final(point_list)@[old(
                    point_list,
                )@.len() + k])@ == stf.regs[k]
            &&& match err {
                Some(e) => r == Result::<Vec<Block>, SceneError>::Err(e),
                None => r is Ok && r->Ok_0@ == finish_blocks(stf),
            }
        }),
{
    let ghost base = old(point_list)@.len() as int;
    let ghost st0 = init_state(base);
    let lines = split_lines(contents);
    let ghost lv = lines_of(contents@);
    proof {
        assert(Seq::new(lines@.len(), |i: int| lines@[i]@) =~= lv);
        assert(regs_view(point_list@, base) =~= Seq::<Seq<Fx>>::empty());
    }
    let mut b = BlockBuilder::empty();
    let mut blocks: Vec<Block> = Vec::new();
    let mut li: usize = 0;
    proof {
        assert(lv.skip(0) =~= lv);
    }
    while li < lines.len()
        invariant
            li <= lines@.len(),
            lv == lines_of(contents@),
            lv.len() == lines@.len(),
            forall|i: int| 0 <= i < lines@.len() ==> (#[trigger] lines@[i])@ == lv[i],
            base == old(point_list)@.len(),
            point_list@.len() >= base,
            forall|k: int| 0 <= k < base ==> point_list@[k] == old(point_list)@[k],
            run_lines(lv, init_state(base)) == run_lines(
                lv.skip(li as int),
                ParseState {
                    b,
                    blocks: blocks@,
                    regs: regs_view(point_list@, base),
                    base,
                },
            ),
        decreases lines@.len() - li,
    {
        let ghost cur = ParseState {
            b,
            blocks: blocks@,
            regs: regs_view(point_list@, base),
            base,
        };
        let ghost lseq = lv[li as int];
        proof {
            assert(lv.skip(li as int)[0] == lv[li as int]);
            assert(lv.skip(li as int).skip(1) =~= lv.skip(li as int + 1));
        }
        let line = &lines[li];
        if line.len() > 0 && line[0] == 45u8 {
            let tail = copy_skip(line, 1);
            let tr = trim_bytes(&tail);
            if tr.len() == 0 {
                proof {
                    assert(run_lines(lv, init_state(base)) == (cur, Some(
                        SceneError::InvalidShape,
                    )));
                }
                return Err(SceneError::InvalidShape);
            }
            match BlockBuilder::from_marker(tr[0]) {
                Ok(nb) => {
                    b = nb;
                },
                Err(e) => {
                    proof {
                        assert(run_lines(lv, init_state(base)) == (cur, Some(e)));
                    }
                    return Err(e);
                },
            }
        } else if line.len() == 1 && line[0] == 35u8 {
            proof {
                assert(lseq =~= seq![35u8]);
            }
            match b.build() {
                Ok(blk) => {
                    blocks.push(blk);
                    b = BlockBuilder::empty();
                },
                Err(e) => {
                    proof {
                        assert(run_lines(lv, init_state(base)) == (cur, Some(e)));
                    }
                    return Err(e);
                },
            }
        } else {
            proof {
                assert(lseq != seq![35u8]) by {
                    if lseq == seq![35u8] {
                        assert(lseq.len() == 1 && lseq[0] == 35u8);
                    }
                }
            }
            let fields = split_fields(line);
            let ghost fs = fields_of(lseq);
            proof {
                assert(Seq::new(fields@.len(), |i: int| fields@[i]@) =~= fs);
            }
            let tag = trim_bytes(&fields[0]);
            if tag.len() == 1 && tag[0] == 80u8 {
                proof {
                    assert(tag@ =~= seq![80u8]);
                }
                match parse_fx_list(&fields) {
                    Ok(vals) => {
                        let ghost prev_regs = regs_view(point_list@, base);
                        let ghost vseq = vals@;
                        b = b.points(vals, point_list);
                        proof {
                            assert(regs_view(point_list@, base) =~= prev_regs.push(vseq));
                        }
                    },
                    Err(e) => {
                        proof {
                            assert(run_lines(lv, init_state(base)) == (cur, Some(e)));
                        }
                        return Err(e);
                    },
                }
            } else if tag.len() == 1 && tag[0] == 67u8 {
                proof {
                    assert(tag@ =~= seq![67u8]);
                    assert(tag@ != seq![80u8]);
                }
                match parse_fx_list(&fields) {
                    Ok(vals) => {
                        if vals.len() < 4 {
                            proof {
                                assert(run_lines(lv, init_state(base)) == (cur, Some(
                                    SceneError::ShortColor,
                                )));
                            }
                            return Err(SceneError::ShortColor);
                        }
                        b = b.color(&vals);
                    },
                    Err(e) => {
                        proof {
                            assert(run_lines(lv, init_state(base)) == (cur, Some(e)));
                        }
                        return Err(e);
                    },
                }
            } else if tag.len() == 1 && tag[0] == 86u8 {
                proof {
                    assert(tag@ =~= seq![86u8]);
                    assert(tag@ != seq![80u8] && tag@ != seq![67u8]);
                }
                match parse_fx_list(&fields) {
                    Ok(vals) => {
                        if vals.len() < 2 {
                            proof {
                                assert(run_lines(lv, init_state(base)) == (cur, Some(
                                    SceneError::ShortVelocity,
                                )));
                            }
                            return Err(SceneError::ShortVelocity);
                        }
                        b = b.velocity(&vals);
                    },
                    Err(e) => {
                        proof {
                            assert(run_lines(lv, init_state(base)) == (cur, Some(e)));
                        }
                        return Err(e);
                    },
                }
            } else {
                proof {
                    assert(tag@ != seq![80u8] && tag@ != seq![67u8] && tag@ != seq![86u8]) by {
                        if tag@ == seq![80u8] {
                            assert(tag@.len() == 1 && tag@[0] == 80u8);
                        }
                        if tag@ == seq![67u8] {
                            assert(tag@.len() == 1 && tag@[0] == 67u8);
                        }
                        if tag@ == seq![86u8] {
                            assert(tag@.len() == 1 && tag@[0] == 86u8);
                        }
                    }
                }
            }
        }
        li = li + 1;
    }
    proof {
        assert(lv.skip(lv.len() as int) =~= Seq::<Seq<u8>>::empty());
    }
    if !matches!(b.block.shape, ShapeKind::Unset) {
        if b.index.is_some() {
            match b.build() {
                Ok(blk) => {
                    blocks.push(blk);
                },
                Err(_) => {
                    proof {
                        assert(false);
                    }
                },
            }
        }
    }
    Ok(blocks)
}

} // verus!
