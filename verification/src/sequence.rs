//! The textual exposure sequence: its grammar, its parser and its writer.
//!
//! A sequence is written as tokens separated by commas. A token, once its
//! surrounding whitespace is removed, is an integer or two integers with a
//! slash between them.

use crate::rational::{lemma_lowest_terms_unique, reduces_in_range, ExposureValue, Rational};
use crate::text::{
    chars_of, find_char, has_char, index_of, is_numeral, is_whitespace, lemma_index_of,
    lemma_parse_rendered_int, parse_i32, parse_int, push_int, render_int, trim, trim_bounds,
    trim_end, trim_start,
};
use vstd::prelude::*;

verus! {

/// The value of one token, already trimmed.
///
/// Without a slash the token is an integer. With one slash it is a fraction
/// of two integers, provided the denominator is not zero and the fraction's
/// lowest terms fit in 32 bits. Any other token has no value.
pub open spec fn token_value(t: Seq<char>) -> Option<Rational> {
    let p = index_of(t, '/') as int;
    if p >= t.len() {
        match parse_int(t) {
            Some(n) => Some(Rational { num: n, den: 1 }),
            None => None,
        }
    } else if has_char(t.skip(p + 1), '/') {
        None
    } else {
        match (parse_int(t.take(p)), parse_int(t.skip(p + 1))) {
            (Some(n), Some(d)) => if reduces_in_range(n, d) {
                Some(Rational { num: n, den: d })
            } else {
                None
            },
            _ => None,
        }
    }
}

/// The values of the tokens of `s` that have one, in the order of the
/// tokens.
pub open spec fn parse_sequence(s: Seq<char>) -> Seq<Rational>
    decreases s.len(),
{
    let k = index_of(s, ',') as int;
    let head = match token_value(trim(s.take(k))) {
        Some(v) => seq![v],
        None => Seq::empty(),
    };
    if k < s.len() {
        head + parse_sequence(s.skip(k + 1))
    } else {
        head
    }
}

/// The exposure values are, one by one, the numbers of `model`.
pub open spec fn represents(values: Seq<ExposureValue>, model: Seq<Rational>) -> bool {
    &&& values.len() == model.len()
    &&& forall|i: int|
        0 <= i < values.len() ==> (#[trigger] values[i]).wf() && values[i]@.same(model[i])
}

/// The models of a sequence of exposure values.
pub open spec fn views(values: Seq<ExposureValue>) -> Seq<Rational> {
    values.map_values(|v: ExposureValue| v@)
}

/// The text of one value: numerator, slash, denominator.
pub open spec fn render_value(v: Rational) -> Seq<char> {
    render_int(v.num) + seq!['/'] + render_int(v.den)
}

/// The parts with a comma and a space between each two.
pub open spec fn join(parts: Seq<Seq<char>>) -> Seq<char>
    decreases parts.len(),
{
    if parts.len() == 0 {
        Seq::empty()
    } else if parts.len() == 1 {
        parts[0]
    } else {
        join(parts.drop_last()) + seq![',', ' '] + parts.last()
    }
}

/// The text of a sequence of values.
pub open spec fn render_sequence(values: Seq<Rational>) -> Seq<char> {
    join(values.map_values(|v: Rational| render_value(v)))
}

/// The value of the token between `from` and `to`.
fn parse_token(chars: &Vec<char>, from: usize, to: usize) -> (r: Option<ExposureValue>)
    requires
        from <= to <= chars.len(),
    ensures
        match r {
            Some(v) => {
                &&& v.wf()
                &&& token_value(chars@.subrange(from as int, to as int)) matches Some(m)
                &&& v@.same(m)
            },
            None => token_value(chars@.subrange(from as int, to as int)) is None,
        },
{
    let ghost t = chars@.subrange(from as int, to as int);
    let p = find_char(chars, from, to, '/');
    if p == to {
        match parse_i32(chars, from, to) {
            Some(n) => Some(ExposureValue::from_integer(n)),
            None => None,
        }
    } else {
        let q = find_char(chars, p + 1, to, '/');
        proof {
            assert(t.skip(p - from + 1) =~= chars@.subrange(p + 1, to as int));
            assert(t.take(p - from) =~= chars@.subrange(from as int, p as int));
        }
        if q < to {
            None
        } else {
            match (parse_i32(chars, from, p), parse_i32(chars, p + 1, to)) {
                (Some(n), Some(d)) => ExposureValue::new(n, d),
                _ => None,
            }
        }
    }
}

/// Reads an exposure sequence: the values of the comma-separated tokens of
/// `sequence_str`, in order. A token without a value is left out.
pub fn parse_exposure_sequence(sequence_str: &str) -> (values: Vec<ExposureValue>)
    ensures
        represents(values@, parse_sequence(sequence_str@)),
{
    let chars = chars_of(sequence_str);
    let ghost s = sequence_str@;
    let mut values: Vec<ExposureValue> = Vec::new();
    let ghost mut done: Seq<Rational> = Seq::empty();
    let mut start: usize = 0;
    let mut finished = false;
    proof {
        assert(s.skip(0) =~= s);
        assert(done + parse_sequence(s) =~= parse_sequence(s));
    }
    while !finished
        invariant
            start <= chars.len(),
            chars@ == s,
            represents(values@, done),
            parse_sequence(s) == if finished {
                done
            } else {
                done + parse_sequence(s.skip(start as int))
            },
        decreases
            if finished {
                0
            } else {
                chars.len() - start + 1
            },
    {
        let k = find_char(&chars, start, chars.len(), ',');
        let (a, b) = trim_bounds(&chars, start, k);
        let item = parse_token(&chars, a, b);
        let ghost rest = s.skip(start as int);
        proof {
            assert(rest =~= chars@.subrange(start as int, chars.len() as int));
            assert(rest.take(k - start) =~= chars@.subrange(start as int, k as int));
        }
        match item {
            Some(v) => {
                values.push(v);
                proof {
                    done = done.push(token_value(trim(rest.take(k - start)))->0);
                }
            },
            None => {},
        }
        if k == chars.len() {
            finished = true;
            proof {
                assert(parse_sequence(s) =~= done);
            }
        } else {
            proof {
                assert(rest.skip(k - start + 1) =~= s.skip(k + 1));
                assert(parse_sequence(s) =~= done + parse_sequence(s.skip(k + 1)));
            }
            start = k + 1;
        }
    }
    values
}

/// Appends the text of one value.
fn push_value(out: &mut String, value: &ExposureValue)
    ensures
        final(out)@ == old(out)@ + render_value(value@),
{
    push_int(out, value.numer());
    out.push('/');
    push_int(out, value.denom());
    proof {
        assert(out@ =~= old(out)@ + render_value(value@));
    }
}

/// Writes an exposure sequence: each value as numerator, slash and
/// denominator, with a comma and a space between each two.
pub fn format_exposure_sequence(values: &Vec<ExposureValue>) -> (text: String)
    ensures
        text@ == render_sequence(views(values@)),
{
    let mut text = String::new();
    let ghost parts = views(values@).map_values(|v: Rational| render_value(v));
    let mut i: usize = 0;
    while i < values.len()
        invariant
            i <= values.len(),
            parts == views(values@).map_values(|v: Rational| render_value(v)),
            text@ == join(parts.take(i as int)),
        decreases values.len() - i,
    {
        if i > 0 {
            text.push(',');
            text.push(' ');
        }
        push_value(&mut text, &values[i]);
        proof {
            let next = parts.take(i + 1);
            assert(next.drop_last() =~= parts.take(i as int));
            assert(next.last() == render_value(values[i as int]@));
            assert(text@ =~= join(next));
        }
        i += 1;
    }
    proof {
        assert(parts.take(i as int) =~= parts);
    }
    text
}

/// Whitespace round a text that neither starts nor ends with whitespace is
/// what `trim` removes.
proof fn lemma_trim_padded(t: Seq<char>, lead: bool)
    requires
        t.len() > 0,
        !is_whitespace(t[0]),
        !is_whitespace(t.last()),
    ensures
        trim(
            if lead {
                seq![' '] + t
            } else {
                t
            },
        ) == t,
{
    assert(trim_start(t) == t);
    assert(trim_end(t) == t);
    if lead {
        let p = seq![' '] + t;
        assert(p.skip(1) =~= t);
        assert(p[0] == ' ');
        assert(is_whitespace(' '));
        assert(trim_start(p) == trim_start(p.skip(1)));
    }
}

/// `join` seen from the left: the first part, the separator, the rest.
proof fn lemma_join_from_left(parts: Seq<Seq<char>>)
    requires
        parts.len() >= 2,
    ensures
        join(parts) == parts[0] + seq![',', ' '] + join(parts.skip(1)),
    decreases parts.len(),
{
    let init = parts.drop_last();
    let tail = parts.skip(1);
    assert(join(parts) == join(init) + seq![',', ' '] + parts.last());
    if parts.len() == 2 {
        assert(init.len() == 1 && init[0] == parts[0]);
        assert(tail.len() == 1 && tail[0] == parts[1]);
        assert(join(init) == init[0]);
        assert(join(tail) == tail[0]);
    } else {
        lemma_join_from_left(init);
        assert(init.skip(1) =~= tail.drop_last());
        assert(init[0] == parts[0]);
        assert(tail.last() == parts.last());
        assert(join(tail) == join(tail.drop_last()) + seq![',', ' '] + tail.last());
        assert(join(parts) =~= parts[0] + seq![',', ' '] + join(tail));
    }
}

/// A token as the writers make them: not empty, without comma, without
/// whitespace at either end, and with the value `v`.
pub open spec fn is_clean_token(token: Seq<char>, v: Rational) -> bool {
    &&& token.len() > 0
    &&& !is_whitespace(token[0])
    &&& !is_whitespace(token.last())
    &&& forall|j: int| 0 <= j < token.len() ==> (#[trigger] token[j]) != ','
    &&& token_value(token) == Some(v)
}

/// The token, with a space in front where `lead` holds.
spec fn padded(token: Seq<char>, lead: bool) -> Seq<char> {
    if lead {
        seq![' '] + token
    } else {
        token
    }
}

/// A clean token, with or without a space in front, keeps its value once
/// trimmed, and holds no comma.
proof fn lemma_padded_token(token: Seq<char>, v: Rational, lead: bool)
    requires
        is_clean_token(token, v),
    ensures
        token_value(trim(padded(token, lead))) == Some(v),
        forall|j: int|
            0 <= j < padded(token, lead).len() ==> (#[trigger] padded(token, lead)[j]) != ',',
{
    let text = padded(token, lead);
    lemma_trim_padded(token, lead);
    assert forall|j: int| 0 <= j < text.len() implies (#[trigger] text[j]) != ',' by {
        if lead {
            if j >= 1 {
                assert(text[j] == token[j - 1]);
            }
        }
    }
}

/// One step of reading: the text up to the first comma gives the first
/// value, the text after it the rest.
proof fn lemma_parse_step(s: Seq<char>, k: int, v: Rational)
    requires
        0 <= k <= s.len(),
        forall|j: int| 0 <= j < k ==> (#[trigger] s[j]) != ',',
        k < s.len() ==> s[k] == ',',
        token_value(trim(s.take(k))) == Some(v),
    ensures
        parse_sequence(s) == if k < s.len() {
            seq![v] + parse_sequence(s.skip(k + 1))
        } else {
            seq![v]
        },
{
    lemma_index_of(s, ',', k);
}

/// A text without comma, then a comma, a space and more text: the comma is
/// the first one, the text before it is the first token, and what follows
/// the comma starts with the space.
proof fn lemma_split_at_comma(s: Seq<char>, head: Seq<char>, tail: Seq<char>)
    requires
        s == head + seq![',', ' '] + tail,
        forall|j: int| 0 <= j < head.len() ==> (#[trigger] head[j]) != ',',
    ensures
        forall|j: int| 0 <= j < head.len() ==> (#[trigger] s[j]) != ',',
        s.len() > head.len(),
        s[head.len() as int] == ',',
        s.take(head.len() as int) == head,
        s.skip(head.len() as int + 1) == seq![' '] + tail,
{
    let k = head.len() as int;
    assert forall|j: int| 0 <= j < k implies (#[trigger] s[j]) != ',' by {
        assert(s[j] == head[j]);
    }
    assert(s[k] == seq![',', ' '][0]);
    assert(s.take(k) =~= head);
    assert(s.skip(k + 1) =~= seq![' '] + tail);
}

/// Reading one or more clean tokens that were joined, with or without a
/// space in front, gives their values.
proof fn lemma_parse_joined(
    tokens: Seq<Seq<char>>,
    values: Seq<Rational>,
    lead: bool,
    s: Seq<char>,
)
    requires
        tokens.len() >= 1,
        tokens.len() == values.len(),
        forall|i: int| 0 <= i < tokens.len() ==> is_clean_token(#[trigger] tokens[i], values[i]),
        s == padded(join(tokens), lead),
    ensures
        parse_sequence(s) == values,
    decreases tokens.len(),
{
    let first = padded(tokens[0], lead);
    let k = first.len() as int;
    assert(is_clean_token(tokens[0], values[0]));
    lemma_padded_token(tokens[0], values[0], lead);
    if tokens.len() == 1 {
        assert(join(tokens) == tokens[0]);
        assert(s.take(k) =~= first);
        lemma_parse_step(s, k, values[0]);
        assert(seq![values[0]] =~= values);
    } else {
        let rest = tokens.skip(1);
        let tail = join(rest);
        let next = padded(tail, true);
        assert(s == first + seq![',', ' '] + tail) by {
            lemma_join_from_left(tokens);
            assert(s =~= first + seq![',', ' '] + tail);
        }
        lemma_split_at_comma(s, first, tail);
        lemma_parse_step(s, k, values[0]);
        assert forall|i: int| 0 <= i < rest.len() implies is_clean_token(
            #[trigger] rest[i],
            values.skip(1)[i],
        ) by {
            assert(rest[i] == tokens[i + 1]);
            assert(is_clean_token(tokens[i + 1], values[i + 1]));
        }
        lemma_parse_joined(rest, values.skip(1), true, next);
        assert(parse_sequence(s) == seq![values[0]] + values.skip(1));
        assert(seq![values[0]] + values.skip(1) =~= values);
    }
}

/// Reading clean tokens that were joined with commas gives their values, in
/// order.
pub proof fn lemma_parse_of_joined(tokens: Seq<Seq<char>>, values: Seq<Rational>)
    requires
        tokens.len() == values.len(),
        forall|i: int| 0 <= i < tokens.len() ==> is_clean_token(#[trigger] tokens[i], values[i]),
    ensures
        parse_sequence(join(tokens)) == values,
{
    if tokens.len() == 0 {
        let s = join(tokens);
        assert(s =~= Seq::<char>::empty());
        assert(s.take(0) =~= s);
        assert(parse_sequence(s) =~= values);
    } else {
        lemma_parse_joined(tokens, values, false, join(tokens));
    }
}

/// Two numerals with a slash between them are a clean token: its value is
/// the fraction of the two integers, where that has lowest terms in range.
pub proof fn lemma_fraction_is_clean(above: Seq<char>, below: Seq<char>, n: int, d: int)
    requires
        is_numeral(above),
        is_numeral(below),
        parse_int(above) == Some(n),
        parse_int(below) == Some(d),
        reduces_in_range(n, d),
    ensures
        is_clean_token(above + seq!['/'] + below, Rational { num: n, den: d }),
{
    let t = above + seq!['/'] + below;
    let k = above.len() as int;
    assert forall|j: int| 0 <= j < t.len() implies (#[trigger] t[j]) != ',' && !is_whitespace(
        t[j],
    ) by {
        if j < k {
            assert(t[j] == above[j]);
        } else if j > k {
            assert(t[j] == below[j - k - 1]);
        }
    }
    assert forall|j: int| 0 <= j < k implies t[j] != '/' by {
        assert(t[j] == above[j]);
    }
    assert(t[k] == '/');
    lemma_index_of(t, '/', k);
    assert(t.take(k) =~= above);
    assert(t.skip(k + 1) =~= below);
    lemma_index_of(below, '/', below.len() as int);
}

/// The text of a value in range with a positive denominator is a clean
/// token with that value.
pub proof fn lemma_rendered_is_clean(v: Rational)
    requires
        v.den > 0,
        v.fits_i32(),
    ensures
        is_clean_token(render_value(v), v),
{
    lemma_parse_rendered_int(v.num);
    lemma_parse_rendered_int(v.den);
    lemma_fraction_is_clean(render_int(v.num), render_int(v.den), v.num, v.den);
}

/// Reading is the inverse of writing: the text that `format_exposure_sequence`
/// writes for a sequence of exposure values is read back by
/// `parse_exposure_sequence` as the same numbers, one for one. So reading the
/// written form of what was read changes nothing.
pub proof fn lemma_parse_of_written(values: Seq<ExposureValue>)
    requires
        forall|i: int| 0 <= i < values.len() ==> (#[trigger] values[i]).wf(),
    ensures
        parse_sequence(render_sequence(views(values))) == views(values),
{
    let model = views(values);
    let tokens = model.map_values(|v: Rational| render_value(v));
    assert forall|i: int| 0 <= i < tokens.len() implies is_clean_token(
        #[trigger] tokens[i],
        model[i],
    ) by {
        assert(values[i].wf());
        lemma_rendered_is_clean(model[i]);
    }
    lemma_parse_of_joined(tokens, model);
}

/// Exposure values that are read from the written form of others are those
/// others, one for one.
pub proof fn lemma_read_back_is_equal(written: Seq<ExposureValue>, read: Seq<ExposureValue>)
    requires
        forall|i: int| 0 <= i < written.len() ==> (#[trigger] written[i]).wf(),
        represents(read, parse_sequence(render_sequence(views(written)))),
    ensures
        views(read) == views(written),
{
    lemma_parse_of_written(written);
    assert forall|i: int| 0 <= i < read.len() implies views(read)[i] == views(written)[i] by {
        assert(read[i].wf() && written[i].wf());
        lemma_lowest_terms_unique(read[i]@, written[i]@);
    }
    assert(views(read) =~= views(written));
}

} // verus!
