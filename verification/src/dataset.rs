//! Loading of raw CSV text into a training feature matrix, a training label
//! vector, and a held-out test set.
//!
//! A data file is a sequence of whitespace-separated row tokens, each a
//! comma-separated list of exactly 785 numeric fields: a label in `0 ..= 9`
//! followed by 784 pixel intensities in `0 ..= 255`. Fields are stored raw;
//! the pipeline reads them as numerators over the common denominator 255,
//! so a training feature row is the 784 scaled pixels followed by the
//! constant bias feature (numerator 255, value one).

use vstd::prelude::*;

use crate::{ints_of_u8, MAX_TRAIN_ROWS, PIXELS, ROW_LEN};

verus! {

/// The ASCII whitespace bytes that separate row tokens: space, tab, line
/// feed, form feed, carriage return.
pub open spec fn is_space(b: u8) -> bool {
    b == 32 || b == 9 || b == 10 || b == 12 || b == 13
}

/// An ASCII decimal digit.
pub open spec fn is_digit(b: u8) -> bool {
    48 <= b <= 57
}

/// Length of the maximal whitespace-free prefix of `s`.
pub open spec fn token_len(s: Seq<u8>) -> nat
    decreases s.len(),
{
    if s.len() == 0 || is_space(s[0]) {
        0
    } else {
        1 + token_len(s.drop_first())
    }
}

/// Length of the maximal comma-free prefix of `s`.
pub open spec fn comma_len(s: Seq<u8>) -> nat
    decreases s.len(),
{
    if s.len() == 0 || s[0] == 44 {
        0
    } else {
        1 + comma_len(s.drop_first())
    }
}

/// The maximal whitespace-free prefix is nonempty exactly when the first
/// byte is no whitespace, and never runs past the end.
pub proof fn lemma_token_len_le(s: Seq<u8>)
    ensures
        token_len(s) <= s.len(),
        s.len() > 0 && !is_space(s[0]) ==> token_len(s) >= 1,
    decreases s.len(),
{
    if s.len() > 0 && !is_space(s[0]) {
        lemma_token_len_le(s.drop_first());
    }
}

/// The maximal comma-free prefix never runs past the end.
pub proof fn lemma_comma_len_le(s: Seq<u8>)
    ensures
        comma_len(s) <= s.len(),
    decreases s.len(),
{
    if s.len() > 0 && s[0] != 44 {
        lemma_comma_len_le(s.drop_first());
    }
}

/// The row tokens of a data file: its maximal whitespace-free runs, in
/// order.
pub open spec fn spec_tokens(s: Seq<u8>) -> Seq<Seq<u8>>
    decreases s.len(),
    via spec_tokens_decreases
{
    if s.len() == 0 {
        Seq::empty()
    } else if is_space(s[0]) {
        spec_tokens(s.drop_first())
    } else {
        seq![s.take(token_len(s) as int)] + spec_tokens(s.skip(token_len(s) as int))
    }
}

#[via_fn]
proof fn spec_tokens_decreases(s: Seq<u8>) {
    lemma_token_len_le(s);
}

/// The comma-separated fields of a row token, one trailing empty field
/// dropped: `a,b,` has the two fields of `a,b`, while an empty field
/// anywhere else is kept (and is never numeric).
pub open spec fn spec_fields(s: Seq<u8>) -> Seq<Seq<u8>>
    decreases s.len(),
    via spec_fields_decreases
{
    if s.len() == 0 {
        Seq::empty()
    } else {
        let c = comma_len(s) as int;
        if c == s.len() {
            seq![s]
        } else {
            seq![s.take(c)] + spec_fields(s.skip(c + 1))
        }
    }
}

#[via_fn]
proof fn spec_fields_decreases(s: Seq<u8>) {
    lemma_comma_len_le(s);
}

/// The number denoted by the digits of `f` appended to the accumulator
/// `acc`, reading left to right.
pub open spec fn field_value(f: Seq<u8>, acc: int) -> int
    decreases f.len(),
{
    if f.len() == 0 {
        acc
    } else {
        field_value(f.drop_first(), acc * 10 + (f[0] - 48))
    }
}

/// A numeric field: nonempty, all decimal digits, value at most 255.
pub open spec fn field_ok(f: Seq<u8>) -> bool {
    &&& f.len() > 0
    &&& forall|m: int| 0 <= m < f.len() ==> is_digit(#[trigger] f[m])
    &&& field_value(f, 0) <= 255
}

/// Every field of the row token is numeric.
pub open spec fn row_fields_ok(tok: Seq<u8>) -> bool {
    forall|m: int| 0 <= m < spec_fields(tok).len() ==> field_ok(#[trigger] spec_fields(tok)[m])
}

/// A well-formed row token: exactly 785 fields, all numeric.
pub open spec fn row_ok(tok: Seq<u8>) -> bool {
    row_fields_ok(tok) && spec_fields(tok).len() == ROW_LEN
}

/// The numbers a well-formed row token denotes, in order.
pub open spec fn row_values(tok: Seq<u8>) -> Seq<int> {
    spec_fields(tok).map_values(|f: Seq<u8>| field_value(f, 0))
}

/// Index of the first row token from `i` on that is not well-formed, or -1.
pub open spec fn first_bad(toks: Seq<Seq<u8>>, i: nat) -> int
    decreases toks.len() - i,
{
    if i >= toks.len() {
        -1
    } else if !row_ok(toks[i as int]) {
        i as int
    } else {
        first_bad(toks, i + 1)
    }
}

/// No row token from `i` on is bad exactly when all are well-formed.
pub proof fn lemma_first_bad_none(toks: Seq<Seq<u8>>, i: nat)
    requires
        i <= toks.len(),
    ensures
        first_bad(toks, i) == -1 <==> forall|m: int| i <= m < toks.len() ==> row_ok(
            #[trigger] toks[m],
        ),
        first_bad(toks, i) != -1 ==> i <= first_bad(toks, i) < toks.len() && !row_ok(
            toks[first_bad(toks, i)],
        ),
    decreases toks.len() - i,
{
    if i < toks.len() {
        lemma_first_bad_none(toks, i + 1);
    }
}

/// The maximal whitespace-free prefix ends exactly at the first whitespace
/// byte (or the end).
proof fn lemma_token_len_char(s: Seq<u8>, t: int)
    requires
        0 <= t <= s.len(),
        forall|m: int| 0 <= m < t ==> !is_space(#[trigger] s[m]),
        t == s.len() || is_space(s[t]),
    ensures
        token_len(s) == t,
    decreases t,
{
    if t == 0 {
    } else {
        assert(!is_space(s[0]));
        lemma_token_len_char(s.drop_first(), t - 1);
    }
}

/// The maximal comma-free prefix ends exactly at the first comma (or the
/// end).
proof fn lemma_comma_len_char(s: Seq<u8>, t: int)
    requires
        0 <= t <= s.len(),
        forall|m: int| 0 <= m < t ==> #[trigger] s[m] != 44,
        t == s.len() || s[t] == 44,
    ensures
        comma_len(s) == t,
    decreases t,
{
    if t == 0 {
    } else {
        lemma_comma_len_char(s.drop_first(), t - 1);
    }
}

/// Reading one more digit multiplies the value by ten and adds the digit.
proof fn lemma_field_value_push(f: Seq<u8>, acc: int, d: u8)
    ensures
        field_value(f.push(d), acc) == 10 * field_value(f, acc) + (d - 48),
    decreases f.len(),
{
    if f.len() == 0 {
        assert(f.push(d).drop_first() =~= Seq::<u8>::empty());
        assert(f.push(d)[0] == d);
        assert(field_value(Seq::<u8>::empty(), acc * 10 + (d - 48)) == acc * 10 + (d - 48));
    } else {
        assert(f.push(d).drop_first() =~= f.drop_first().push(d));
        assert(f.push(d)[0] == f[0]);
        lemma_field_value_push(f.drop_first(), acc * 10 + (f[0] - 48), d);
    }
}

/// Once the accumulated value exceeds 255, reading further bytes keeps it
/// above 255.
proof fn lemma_field_value_monotone(f: Seq<u8>, acc: int)
    requires
        acc > 255,
    ensures
        field_value(f, acc) > 255,
    decreases f.len(),
{
    if f.len() > 0 {
        lemma_field_value_monotone(f.drop_first(), acc * 10 + (f[0] - 48));
    }
}

/// Splits a data file into its row tokens: the maximal whitespace-free
/// runs, in file order.
fn tokenize(input: &Vec<u8>) -> (tokens: Vec<Vec<u8>>)
    ensures
        tokens@.map_values(|t: Vec<u8>| t@) == spec_tokens(input@),
{
    let n = input.len();
    let mut tokens: Vec<Vec<u8>> = Vec::new();
    let mut pos: usize = 0;
    proof {
        assert(input@.skip(0) =~= input@);
        assert(tokens@.map_values(|t: Vec<u8>| t@) =~= Seq::<Seq<u8>>::empty());
    }
    while pos < n
        invariant
            n == input@.len(),
            pos <= n,
            tokens@.map_values(|t: Vec<u8>| t@) + spec_tokens(input@.skip(pos as int))
                =~= spec_tokens(input@),
        decreases n - pos,
    {
        if is_space_byte(input[pos]) {
            proof {
                assert(input@.skip(pos as int).drop_first() =~= input@.skip(pos as int + 1));
            }
            pos = pos + 1;
        } else {
            let start = pos;
            let mut q = pos;
            let mut tok: Vec<u8> = Vec::new();
            while q < n && !is_space_byte(input[q])
                invariant
                    n == input@.len(),
                    start <= q <= n,
                    forall|m: int| start <= m < q ==> !is_space(#[trigger] input@[m]),
                    tok@ =~= input@.subrange(start as int, q as int),
                decreases n - q,
            {
                tok.push(input[q]);
                q = q + 1;
            }
            proof {
                let rest = input@.skip(start as int);
                assert forall|m: int| 0 <= m < q - start implies !is_space(#[trigger] rest[m]) by {
                    assert(rest[m] == input@[start + m]);
                }
                if q < n {
                    assert(is_space(rest[q - start]));
                }
                lemma_token_len_char(rest, q - start);
                assert(rest.take(q - start) =~= input@.subrange(start as int, q as int));
                assert(rest.skip(q - start) =~= input@.skip(q as int));
                assert((tokens@.map_values(|t: Vec<u8>| t@)).push(tok@) =~= tokens@.push(
                    tok,
                ).map_values(|t: Vec<u8>| t@));
            }
            tokens.push(tok);
            pos = q;
        }
    }
    proof {
        assert(spec_tokens(input@.skip(pos as int)) =~= Seq::<Seq<u8>>::empty());
        assert(tokens@.map_values(|t: Vec<u8>| t@) =~= tokens@.map_values(|t: Vec<u8>| t@)
            + Seq::<Seq<u8>>::empty());
    }
    tokens
}

/// Whether the byte separates row tokens.
fn is_space_byte(b: u8) -> (r: bool)
    ensures
        r == is_space(b),
{
    b == 32 || b == 9 || b == 10 || b == 12 || b == 13
}

/// Why a data file failed to load. No partial data set is ever produced.
#[derive(Clone, Copy, Debug, PartialEq, Eq, Structural)]
pub enum LoadError {
    /// Some row holds a field that is not a number in `0 ..= 255`.
    MalformedField,
    /// Some row has other than 785 fields: jagged rows are rejected, not
    /// padded.
    ShapeMismatch,
    /// The training partition would exceed the supported row count.
    TooManyRows,
}

/// Parses one row token into its 785 field values: the label followed by
/// the 784 raw pixels. Fails on the first non-numeric field, or, when all
/// fields are numeric, on a field count other than 785.
fn parse_row(tok: &Vec<u8>) -> (r: Result<Vec<u8>, LoadError>)
    ensures
        r is Ok <==> row_ok(tok@),
        r is Ok ==> r->Ok_0@.len() == ROW_LEN && row_values(tok@).len() == ROW_LEN && forall|
            m: int,
        | 0 <= m < ROW_LEN ==> #[trigger] r->Ok_0@[m] as int == row_values(tok@)[m],
        r is Err ==> r->Err_0 == (if !row_fields_ok(tok@) {
            LoadError::MalformedField
        } else {
            LoadError::ShapeMismatch
        }),
{
    let ghost allf = spec_fields(tok@);
    let n = tok.len();
    let mut vals: Vec<u8> = Vec::new();
    let mut pos: usize = 0;
    proof {
        assert(tok@.skip(0) =~= tok@);
    }
    while pos < n
        invariant
            n == tok@.len(),
            pos <= n,
            allf == spec_fields(tok@),
            vals@.len() <= allf.len(),
            spec_fields(tok@.skip(pos as int)) == allf.skip(vals@.len() as int),
            forall|m: int|
                0 <= m < vals@.len() ==> field_ok(#[trigger] allf[m]) && vals@[m] as int
                    == field_value(allf[m], 0),
        decreases n - pos,
    {
        let start = pos;
        let mut q = pos;
        while q < n && tok[q] != 44
            invariant
                n == tok@.len(),
                start <= q <= n,
                forall|m: int| start <= m < q ==> #[trigger] tok@[m] != 44,
            decreases n - q,
        {
            q = q + 1;
        }
        let ghost rest = tok@.skip(start as int);
        let ghost fld = tok@.subrange(start as int, q as int);
        proof {
            assert forall|m: int| 0 <= m < q - start implies #[trigger] rest[m] != 44 by {
                assert(rest[m] == tok@[start + m]);
            }
            if q < n {
                assert(rest[q - start] == tok@[q as int]);
            }
            lemma_comma_len_char(rest, q - start);
            assert(rest.take(q - start) =~= fld);
            assert(rest.len() > 0);
            if q == n {
                assert(spec_fields(rest) == seq![rest]);
                assert(rest =~= fld);
            } else {
                assert(spec_fields(rest) == seq![fld] + spec_fields(rest.skip(q - start + 1)));
                assert(rest.skip(q - start + 1) =~= tok@.skip(q as int + 1));
            }
            assert(allf.skip(vals@.len() as int)[0] == fld);
            assert(allf[vals@.len() as int] == fld);
        }
        // validate and evaluate the field
        if q == start {
            // an empty field is never numeric
            proof {
                assert(fld.len() == 0);
                assert(!field_ok(allf[vals@.len() as int]));
            }
            return Err(LoadError::MalformedField);
        }
        let mut v: u32 = 0;
        let mut m = start;
        proof {
            assert(fld.take(0) =~= Seq::<u8>::empty());
        }
        while m < q
            invariant
                n == tok@.len(),
                start <= m <= q <= n,
                fld == tok@.subrange(start as int, q as int),
                allf == spec_fields(tok@),
                0 <= vals@.len() < allf.len(),
                allf[vals@.len() as int] == fld,
                forall|t: int| start <= t < m ==> is_digit(#[trigger] tok@[t]),
                v as int == field_value(fld.take(m - start), 0),
                v <= 255,
            decreases q - m,
        {
            let b = tok[m];
            if b < 48 || b > 57 {
                proof {
                    assert(fld[m - start] == tok@[m as int]);
                    assert(!is_digit(fld[m - start]));
                    assert(!field_ok(allf[vals@.len() as int]));
                }
                return Err(LoadError::MalformedField);
            }
            proof {
                assert(fld.take(m - start + 1) =~= fld.take(m - start).push(tok@[m as int]));
                lemma_field_value_push(fld.take(m - start), 0, tok@[m as int]);
            }
            v = v * 10 + ((b - 48) as u32);
            if v > 255 {
                proof {
                    assert(fld.take(m - start + 1).add(fld.skip(m - start + 1)) =~= fld);
                    lemma_field_value_split(fld.take(m - start + 1), fld.skip(m - start + 1));
                    lemma_field_value_monotone(fld.skip(m - start + 1), v as int);
                    assert(field_value(fld, 0) > 255);
                    assert(!field_ok(allf[vals@.len() as int]));
                }
                return Err(LoadError::MalformedField);
            }
            m = m + 1;
        }
        proof {
            assert(fld.take(q - start) =~= fld);
            assert forall|t: int| 0 <= t < fld.len() implies is_digit(#[trigger] fld[t]) by {
                assert(fld[t] == tok@[start + t]);
            }
            assert(field_ok(fld));
            assert(allf.skip(vals@.len() as int).drop_first() =~= allf.skip(
                vals@.len() as int + 1,
            ));
            if q == n {
                assert(spec_fields(tok@.skip(n as int)) =~= Seq::<Seq<u8>>::empty());
                assert(allf.skip(vals@.len() as int) =~= seq![fld]);
                assert(allf.skip(vals@.len() as int + 1) =~= Seq::<Seq<u8>>::empty());
            }
        }
        vals.push(v as u8);
        if q == n {
            pos = n;
        } else {
            pos = q + 1;
        }
    }
    proof {
        assert(spec_fields(tok@.skip(pos as int)) =~= Seq::<Seq<u8>>::empty());
        assert(vals@.len() == allf.len());
    }
    if vals.len() != ROW_LEN {
        return Err(LoadError::ShapeMismatch);
    }
    proof {
        assert(row_ok(tok@));
        assert forall|m: int| 0 <= m < ROW_LEN implies #[trigger] vals@[m] as int == row_values(
            tok@,
        )[m] by {
            assert(row_values(tok@)[m] == field_value(allf[m], 0));
        }
    }
    Ok(vals)
}

/// Splitting a byte sequence in two chains the value computation: the
/// right part continues from the left part's value.
proof fn lemma_field_value_split(a: Seq<u8>, b: Seq<u8>)
    ensures
        field_value(a.add(b), 0) == field_value(b, field_value(a, 0)),
{
    lemma_field_value_split_acc(a, b, 0);
}

proof fn lemma_field_value_split_acc(a: Seq<u8>, b: Seq<u8>, acc: int)
    ensures
        field_value(a.add(b), acc) == field_value(b, field_value(a, acc)),
    decreases a.len(),
{
    if a.len() == 0 {
        assert(a.add(b) =~= b);
    } else {
        assert(a.add(b).drop_first() =~= a.drop_first().add(b));
        assert(a.add(b)[0] == a[0]);
        lemma_field_value_split_acc(a.drop_first(), b, acc * 10 + (a[0] - 48));
    }
}

/// The number of test rows cut from the front of a file of `total` rows:
/// the fixed 20 percent test fraction, rounded down.
pub open spec fn test_count(total: int) -> int {
    total * 20 / 100
}

/// Twenty percent rounded down is division by five, and never exceeds the
/// whole.
pub proof fn lemma_test_count(total: int)
    requires
        total >= 0,
    ensures
        test_count(total) == total / 5,
        0 <= total / 5 <= total,
{
    vstd::arithmetic::div_mod::lemma_fundamental_div_mod(total, 5);
    vstd::arithmetic::div_mod::lemma_mod_bound(total, 5);
    let q = total / 5;
    let rr = total % 5;
    vstd::arithmetic::div_mod::lemma_div_pos_is_pos(total, 5);
    assert(total * 20 == 100 * q + 20 * rr) by (nonlinear_arith)
        requires
            total == 5 * q + rr,
    ;
    vstd::arithmetic::div_mod::lemma_div_multiples_vanish_fancy(q, 20 * rr, 100);
    assert(q <= total) by (nonlinear_arith)
        requires
            total == 5 * q + rr,
            rr >= 0,
            q >= 0,
    ;
}

/// The load error a file's row tokens call for: the first row with a
/// non-numeric field gives `MalformedField`; otherwise the first row of
/// all-numeric fields whose count is not 785 gives `ShapeMismatch`;
/// otherwise a training partition past the supported row count gives
/// `TooManyRows`; a well-formed file of supported size gives no error.
pub open spec fn load_error_of(input: Seq<u8>) -> Option<LoadError> {
    let toks = spec_tokens(input);
    let fb = first_bad(toks, 0);
    if fb >= 0 {
        if !row_fields_ok(toks[fb]) {
            Some(LoadError::MalformedField)
        } else {
            Some(LoadError::ShapeMismatch)
        }
    } else if toks.len() - test_count(toks.len() as int) > MAX_TRAIN_ROWS {
        Some(LoadError::TooManyRows)
    } else {
        None
    }
}

/// The data set a well-formed file parses to: the first
/// `floor(total_rows * 0.2)` row tokens, in file order, as the test set
/// (784 raw pixels and the label each); all remaining row tokens as the
/// training matrix (784 raw pixels followed by the bias-feature numerator
/// 255 each) with the labels in a parallel vector.
pub open spec fn parse_output_ok(input: Seq<u8>, ts: TrainSet) -> bool {
    let toks = spec_tokens(input);
    let ne = test_count(toks.len() as int);
    let ntr = toks.len() - ne;
    &&& first_bad(toks, 0) == -1
    &&& ts.wf()
    &&& ts.test_data@.len() == ne
    &&& ts.input_data@.len() == ntr
    &&& ts.desired_result@.len() == ntr
    &&& forall|i: int|
        0 <= i < ne ==> ints_of_u8((#[trigger] ts.test_data@[i]).0@) == row_values(
            toks[i],
        ).subrange(1, ROW_LEN as int) && ts.test_data@[i].1 as int == row_values(toks[i])[0]
    &&& forall|i: int|
        0 <= i < ntr ==> #[trigger] ts.rows_int()[i] == row_values(toks[ne + i]).subrange(
            1,
            ROW_LEN as int,
        ).push(255) && ts.labels_int()[i] == row_values(toks[ne + i])[0]
}

/// Parses the full text of a data file: on success the result is exactly
/// the partition `parse_output_ok` describes, and on failure the error is
/// exactly the one `load_error_of` names. No partial data set is ever
/// produced.
pub fn parse(input: &Vec<u8>) -> (r: Result<TrainSet, LoadError>)
    ensures
        r is Ok <==> load_error_of(input@) is None,
        r is Err ==> Some(r->Err_0) == load_error_of(input@),
        r is Ok ==> parse_output_ok(input@, r->Ok_0),
{
    let ghost toks = spec_tokens(input@);
    let tokens = tokenize(input);
    let total = tokens.len();
    let mut rows: Vec<Vec<u8>> = Vec::new();
    let mut t: usize = 0;
    while t < total
        invariant
            toks == spec_tokens(input@),
            tokens@.map_values(|tk: Vec<u8>| tk@) == toks,
            total == toks.len(),
            t <= total,
            rows@.len() == t,
            first_bad(toks, t as nat) == first_bad(toks, 0),
            forall|m: int| 0 <= m < t ==> row_ok(#[trigger] toks[m]),
            forall|m: int|
                0 <= m < t ==> (#[trigger] rows@[m])@.len() == ROW_LEN && row_values(
                    toks[m],
                ).len() == ROW_LEN && forall|k: int|
                    0 <= k < ROW_LEN ==> #[trigger] rows@[m]@[k] as int == row_values(toks[m])[k],
        decreases total - t,
    {
        proof {
            assert(toks[t as int] == tokens@[t as int]@);
        }
        match parse_row(&tokens[t]) {
            Ok(v) => {
                rows.push(v);
            },
            Err(e) => {
                proof {
                    assert(first_bad(toks, t as nat) == t);
                }
                return Err(e);
            },
        }
        t = t + 1;
    }
    proof {
        assert(first_bad(toks, total as nat) == -1);
        lemma_test_count(total as int);
    }
    let n_entries = total / 5;
    let n_train = total - n_entries;
    if n_train as u64 > MAX_TRAIN_ROWS {
        return Err(LoadError::TooManyRows);
    }
    let mut test_data: Vec<(Vec<u8>, u8)> = Vec::new();
    let mut i: usize = 0;
    while i < n_entries
        invariant
            n_entries <= total,
            total == toks.len(),
            rows@.len() == total,
            forall|m: int|
                0 <= m < total ==> (#[trigger] rows@[m])@.len() == ROW_LEN && row_values(
                    toks[m],
                ).len() == ROW_LEN && forall|k: int|
                    0 <= k < ROW_LEN ==> #[trigger] rows@[m]@[k] as int == row_values(toks[m])[k],
            i <= n_entries,
            test_data@.len() == i,
            forall|m: int|
                0 <= m < i ==> (#[trigger] test_data@[m]).0@.len() == PIXELS && ints_of_u8(
                    test_data@[m].0@,
                ) == row_values(toks[m]).subrange(1, ROW_LEN as int) && test_data@[m].1 as int
                    == row_values(toks[m])[0],
        decreases n_entries - i,
    {
        let label = rows[i][0];
        let mut feat: Vec<u8> = Vec::new();
        let mut k: usize = 1;
        while k < ROW_LEN
            invariant
                i < rows@.len(),
                rows@[i as int]@.len() == ROW_LEN,
                1 <= k <= ROW_LEN,
                feat@.len() == k - 1,
                forall|m: int| 0 <= m < k - 1 ==> #[trigger] feat@[m] == rows@[i as int]@[m + 1],
            decreases ROW_LEN - k,
        {
            feat.push(rows[i][k]);
            k = k + 1;
        }
        proof {
            assert(ints_of_u8(feat@) =~= row_values(toks[i as int]).subrange(1, ROW_LEN as int));
        }
        test_data.push((feat, label));
        i = i + 1;
    }
    let mut input_data: Vec<Vec<u8>> = Vec::new();
    let mut desired_result: Vec<u8> = Vec::new();
    let mut i: usize = 0;
    while i < n_train
        invariant
            n_entries + n_train == total,
            total == toks.len(),
            rows@.len() == total,
            forall|m: int|
                0 <= m < total ==> (#[trigger] rows@[m])@.len() == ROW_LEN && row_values(
                    toks[m],
                ).len() == ROW_LEN && forall|k: int|
                    0 <= k < ROW_LEN ==> #[trigger] rows@[m]@[k] as int == row_values(toks[m])[k],
            i <= n_train,
            input_data@.len() == i,
            desired_result@.len() == i,
            forall|m: int|
                0 <= m < i ==> (#[trigger] input_data@[m])@.len() == ROW_LEN && ints_of_u8(
                    input_data@[m]@,
                ) == row_values(toks[n_entries + m]).subrange(1, ROW_LEN as int).push(255)
                    && desired_result@[m] as int == row_values(toks[n_entries + m])[0],
        decreases n_train - i,
    {
        let label = rows[n_entries + i][0];
        let mut feat: Vec<u8> = Vec::new();
        let mut k: usize = 1;
        while k < ROW_LEN
            invariant
                n_entries + i < rows@.len(),
                rows@.len() <= usize::MAX,
                rows@[n_entries + i as int]@.len() == ROW_LEN,
                1 <= k <= ROW_LEN,
                feat@.len() == k - 1,
                forall|m: int|
                    0 <= m < k - 1 ==> #[trigger] feat@[m] == rows@[n_entries + i as int]@[m + 1],
            decreases ROW_LEN - k,
        {
            feat.push(rows[n_entries + i][k]);
            k = k + 1;
        }
        feat.push(255);
        proof {
            assert(ints_of_u8(feat@) =~= row_values(toks[n_entries + i as int]).subrange(
                1,
                ROW_LEN as int,
            ).push(255));
        }
        input_data.push(feat);
        desired_result.push(label);
        i = i + 1;
    }
    let ts = TrainSet { input_data, desired_result, test_data };
    proof {
        lemma_test_count(total as int);
        assert forall|m: int| 0 <= m < n_train as int implies #[trigger] ts.rows_int()[m]
            == row_values(toks[n_entries + m]).subrange(1, ROW_LEN as int).push(255)
            && ts.labels_int()[m] == row_values(toks[n_entries + m])[0] by {
            assert(ts.rows_int()[m] == ints_of_u8(ts.input_data@[m]@));
            assert(ts.labels_int()[m] == ts.desired_result@[m] as int);
        }
        assert(parse_output_ok(input@, ts));
    }
    Ok(ts)
}

/// A parsed data set: the training matrix with its parallel label vector,
/// and the held-out test set of (feature vector, true label) pairs.
pub struct TrainSet {
    /// Training matrix: one row per training sample, each of length 785
    /// (784 raw pixels followed by the bias-feature numerator 255).
    pub input_data: Vec<Vec<u8>>,
    /// True label of each training row, in the same order.
    pub desired_result: Vec<u8>,
    /// Held-out test set: 784 raw pixels (bias feature stripped) and the
    /// true label of each test row.
    pub test_data: Vec<(Vec<u8>, u8)>,
}

impl TrainSet {
    /// Well-formedness: parallel training rows and labels, rows of length
    /// 785, test vectors of length 784, and a row count small enough that
    /// training arithmetic stays within 64 bits.
    pub open spec fn wf(self) -> bool {
        &&& self.input_data@.len() == self.desired_result@.len()
        &&& self.input_data@.len() <= MAX_TRAIN_ROWS
        &&& forall|i: int|
            0 <= i < self.input_data@.len() ==> (#[trigger] self.input_data@[i])@.len() == ROW_LEN
        &&& forall|i: int|
            0 <= i < self.test_data@.len() ==> (#[trigger] self.test_data@[i]).0@.len() == PIXELS
    }

    /// The training matrix as a sequence of integer rows.
    pub open spec fn rows_int(self) -> Seq<Seq<int>> {
        self.input_data@.map_values(|r: Vec<u8>| ints_of_u8(r@))
    }

    /// The training labels as integers.
    pub open spec fn labels_int(self) -> Seq<int> {
        ints_of_u8(self.desired_result@)
    }
}

} // verus!
