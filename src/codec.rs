use vstd::prelude::*;

use crate::expr::{
    binary_first, binary_index, binary_second, lemma_binary_determined, lemma_unary_determined,
    unary_arg, unary_index, ComputeFunction, ConstantFunction, Decimal, SingleArgFunction,
    TwoArgFunction, BINARY_OPERATORS, UNARY_OPERATORS,
};

verus! {

/// Tag byte of a constant leaf; three decimals follow.
pub const TAG_CONSTANT: u8 = 0;

/// Tag byte of a coordinate leaf; the axis byte follows.
pub const TAG_COORD: u8 = 1;

/// Tag byte of a one-argument node; the operator byte and the operand follow.
pub const TAG_ONE: u8 = 2;

/// Tag byte of a two-argument node; the operator byte and both operands follow.
pub const TAG_TWO: u8 = 3;

/// Tag byte of a placeholder.
pub const TAG_PLACEHOLDER: u8 = 4;

/// A 32-bit word as four bytes, least significant first.
pub open spec fn word_bytes(x: u32) -> Seq<u8> {
    seq![
        (x & 0xff) as u8,
        ((x >> 8u32) & 0xff) as u8,
        ((x >> 16u32) & 0xff) as u8,
        ((x >> 24u32) & 0xff) as u8,
    ]
}

/// A decimal as six bytes: sign (0 or 1), digits as a word, scale.
pub open spec fn decimal_bytes(d: Decimal) -> Seq<u8> {
    seq![if d.negative { 1u8 } else { 0u8 }] + word_bytes(d.digits) + seq![d.scale]
}

/// The byte encoding of a tree: each node in pre-order, as its tag byte
/// followed by its fields.
pub open spec fn encoded(f: ComputeFunction) -> Seq<u8>
    decreases f,
{
    match f {
        ComputeFunction::Zero(c) => match *c {
            ConstantFunction::Constant(r, g, b) => seq![TAG_CONSTANT] + decimal_bytes(r)
                + decimal_bytes(g) + decimal_bytes(b),
            ConstantFunction::Coord(dim) => seq![TAG_COORD, dim],
        },
        ComputeFunction::One(s) => match *s {
            SingleArgFunction::Sin(a)
            | SingleArgFunction::Cos(a)
            | SingleArgFunction::Tan(a)
            | SingleArgFunction::Atan(a)
            | SingleArgFunction::Sinh(a)
            | SingleArgFunction::Cosh(a)
            | SingleArgFunction::Abs(a)
            | SingleArgFunction::Reciprocal(a)
            | SingleArgFunction::Square(a)
            | SingleArgFunction::SquareRoot(a)
            | SingleArgFunction::Loge(a) => seq![TAG_ONE, unary_index(*s) as u8] + encoded(a),
        },
        ComputeFunction::Two(t) => match *t {
            TwoArgFunction::Add(a, b)
            | TwoArgFunction::Subtract(a, b)
            | TwoArgFunction::Multiply(a, b)
            | TwoArgFunction::Divide(a, b)
            | TwoArgFunction::Min(a, b)
            | TwoArgFunction::Max(a, b)
            | TwoArgFunction::Avg(a, b)
            | TwoArgFunction::Mod(a, b)
            | TwoArgFunction::Exponent(a, b)
            | TwoArgFunction::And(a, b)
            | TwoArgFunction::Or(a, b)
            | TwoArgFunction::Xor(a, b) => seq![TAG_TWO, binary_index(*t) as u8] + encoded(a) + encoded(b),
        },
        ComputeFunction::Placeholder => seq![TAG_PLACEHOLDER],
    }
}

/// The tree whose encoding `b` is, if there is one.
pub open spec fn decoded(b: Seq<u8>) -> Option<ComputeFunction> {
    if exists|f: ComputeFunction| encoded(f) == b {
        Some(choose|f: ComputeFunction| encoded(f) == b)
    } else {
        None
    }
}

/// The tag byte of a node.
pub open spec fn tag_of(f: ComputeFunction) -> u8 {
    match f {
        ComputeFunction::Zero(c) => match *c {
            ConstantFunction::Constant(_, _, _) => TAG_CONSTANT,
            ConstantFunction::Coord(_) => TAG_COORD,
        },
        ComputeFunction::One(_) => TAG_ONE,
        ComputeFunction::Two(_) => TAG_TWO,
        ComputeFunction::Placeholder => TAG_PLACEHOLDER,
    }
}

proof fn lemma_encoded_one(s: SingleArgFunction)
    ensures
        encoded(ComputeFunction::One(Box::new(s))) == seq![TAG_ONE, unary_index(s) as u8]
            + encoded(unary_arg(s)),
        unary_index(s) < UNARY_OPERATORS,
{
}

proof fn lemma_encoded_two(t: TwoArgFunction)
    ensures
        encoded(ComputeFunction::Two(Box::new(t))) == seq![TAG_TWO, binary_index(t) as u8]
            + encoded(binary_first(t)) + encoded(binary_second(t)),
        binary_index(t) < BINARY_OPERATORS,
{
}

proof fn lemma_encoded_head(f: ComputeFunction)
    ensures
        encoded(f).len() >= 1,
        encoded(f)[0] == tag_of(f),
{
    match f {
        ComputeFunction::One(s) => lemma_encoded_one(*s),
        ComputeFunction::Two(t) => lemma_encoded_two(*t),
        _ => {},
    }
}

proof fn lemma_word_injective(x: u32, y: u32)
    requires
        word_bytes(x) == word_bytes(y),
    ensures
        x == y,
{
    assert(word_bytes(x)[0] == word_bytes(y)[0]);
    assert(word_bytes(x)[1] == word_bytes(y)[1]);
    assert(word_bytes(x)[2] == word_bytes(y)[2]);
    assert(word_bytes(x)[3] == word_bytes(y)[3]);
    assert(((x & 0xff) as u8 == (y & 0xff) as u8 && ((x >> 8u32) & 0xff) as u8 == ((y >> 8u32)
        & 0xff) as u8 && ((x >> 16u32) & 0xff) as u8 == ((y >> 16u32) & 0xff) as u8 && ((x
        >> 24u32) & 0xff) as u8 == ((y >> 24u32) & 0xff) as u8) ==> x == y) by (bit_vector);
}

proof fn lemma_decimal_injective(d: Decimal, e: Decimal)
    requires
        decimal_bytes(d) == decimal_bytes(e),
    ensures
        d == e,
{
    let (bd, be) = (decimal_bytes(d), decimal_bytes(e));
    assert(bd[0] == be[0]);
    assert(bd[5] == be[5]);
    assert(word_bytes(d.digits) =~= bd.subrange(1, 5));
    assert(word_bytes(e.digits) =~= be.subrange(1, 5));
    lemma_word_injective(d.digits, e.digits);
}

/// No encoding is a proper prefix of another: equal byte streams that start
/// with two encodings start with the same tree and go on alike.
pub proof fn lemma_encoded_prefix_free(
    f: ComputeFunction,
    g: ComputeFunction,
    x: Seq<u8>,
    y: Seq<u8>,
)
    requires
        encoded(f) + x == encoded(g) + y,
    ensures
        f == g,
        x == y,
    decreases f,
{
    let (ef, eg) = (encoded(f), encoded(g));
    lemma_encoded_head(f);
    lemma_encoded_head(g);
    assert((ef + x)[0] == ef[0]);
    assert((eg + y)[0] == eg[0]);
    match f {
        ComputeFunction::Zero(c) => match *c {
            ConstantFunction::Constant(r, gg, b) => {
                if let ComputeFunction::Zero(c2) = g {
                    if let ConstantFunction::Constant(r2, g2, b2) = *c2 {
                        let s = ef + x;
                        let t = eg + y;
                        assert(decimal_bytes(r) =~= s.subrange(1, 7));
                        assert(decimal_bytes(r2) =~= t.subrange(1, 7));
                        assert(decimal_bytes(gg) =~= s.subrange(7, 13));
                        assert(decimal_bytes(g2) =~= t.subrange(7, 13));
                        assert(decimal_bytes(b) =~= s.subrange(13, 19));
                        assert(decimal_bytes(b2) =~= t.subrange(13, 19));
                        lemma_decimal_injective(r, r2);
                        lemma_decimal_injective(gg, g2);
                        lemma_decimal_injective(b, b2);
                        assert(x =~= s.subrange(19, s.len() as int));
                        assert(y =~= t.subrange(19, t.len() as int));
                    }
                }
            },
            ConstantFunction::Coord(d) => {
                let s = ef + x;
                assert(s[1] == d);
                assert(x =~= s.subrange(2, s.len() as int));
                assert(y =~= (eg + y).subrange(2, s.len() as int));
            },
        },
        ComputeFunction::One(s) => {
            let s2 = match g {
                ComputeFunction::One(s2) => *s2,
                _ => *s,
            };
            lemma_encoded_one(*s);
            lemma_encoded_one(s2);
            let w = ef + x;
            assert(w[1] == unary_index(*s) as u8);
            assert(w[1] == unary_index(s2) as u8);
            assert(encoded(unary_arg(*s)) + x =~= w.subrange(2, w.len() as int));
            assert(encoded(unary_arg(s2)) + y =~= w.subrange(2, w.len() as int));
            match *s {
                SingleArgFunction::Sin(a)
                | SingleArgFunction::Cos(a)
                | SingleArgFunction::Tan(a)
                | SingleArgFunction::Atan(a)
                | SingleArgFunction::Sinh(a)
                | SingleArgFunction::Cosh(a)
                | SingleArgFunction::Abs(a)
                | SingleArgFunction::Reciprocal(a)
                | SingleArgFunction::Square(a)
                | SingleArgFunction::SquareRoot(a)
                | SingleArgFunction::Loge(a) => {
                    lemma_encoded_prefix_free(a, unary_arg(s2), x, y);
                },
            }
            lemma_unary_determined(*s, s2);
        },
        ComputeFunction::Two(t) => {
            let t2 = match g {
                ComputeFunction::Two(t2) => *t2,
                _ => *t,
            };
            lemma_encoded_two(*t);
            lemma_encoded_two(t2);
            let w = ef + x;
            assert(w[1] == binary_index(*t) as u8);
            assert(w[1] == binary_index(t2) as u8);
            let (a1, b1) = (binary_first(*t), binary_second(*t));
            let (a2, b2) = (binary_first(t2), binary_second(t2));
            assert(encoded(a1) + (encoded(b1) + x) =~= w.subrange(2, w.len() as int));
            assert(encoded(a2) + (encoded(b2) + y) =~= w.subrange(2, w.len() as int));
            match *t {
                TwoArgFunction::Add(a, b)
                | TwoArgFunction::Subtract(a, b)
                | TwoArgFunction::Multiply(a, b)
                | TwoArgFunction::Divide(a, b)
                | TwoArgFunction::Min(a, b)
                | TwoArgFunction::Max(a, b)
                | TwoArgFunction::Avg(a, b)
                | TwoArgFunction::Mod(a, b)
                | TwoArgFunction::Exponent(a, b)
                | TwoArgFunction::And(a, b)
                | TwoArgFunction::Or(a, b)
                | TwoArgFunction::Xor(a, b) => {
                    lemma_encoded_prefix_free(a, a2, encoded(b1) + x, encoded(b2) + y);
                    lemma_encoded_prefix_free(b, b2, x, y);
                },
            }
            lemma_binary_determined(*t, t2);
        },
        ComputeFunction::Placeholder => {
            let s = ef + x;
            assert(x =~= s.subrange(1, s.len() as int));
            assert(y =~= (eg + y).subrange(1, s.len() as int));
        },
    }
}

/// Decoding the encoding of any tree gives that tree back.
pub proof fn lemma_round_trip(f: ComputeFunction)
    ensures
        decoded(encoded(f)) == Some(f),
{
    let g = choose|g: ComputeFunction| encoded(g) == encoded(f);
    assert(encoded(g) + Seq::<u8>::empty() =~= encoded(f) + Seq::<u8>::empty());
    lemma_encoded_prefix_free(g, f, Seq::<u8>::empty(), Seq::<u8>::empty());
}

fn push_word(out: &mut Vec<u8>, x: u32)
    ensures
        final(out)@ == old(out)@ + word_bytes(x),
{
    out.push((x & 0xff) as u8);
    out.push(((x >> 8u32) & 0xff) as u8);
    out.push(((x >> 16u32) & 0xff) as u8);
    out.push(((x >> 24u32) & 0xff) as u8);
    assert(final(out)@ =~= old(out)@ + word_bytes(x));
}

fn push_decimal(out: &mut Vec<u8>, d: Decimal)
    ensures
        final(out)@ == old(out)@ + decimal_bytes(d),
{
    out.push(if d.negative { 1u8 } else { 0u8 });
    push_word(out, d.digits);
    out.push(d.scale);
    assert(final(out)@ =~= old(out)@ + decimal_bytes(d));
}

fn write_node(f: &ComputeFunction, out: &mut Vec<u8>)
    ensures
        final(out)@ == old(out)@ + encoded(*f),
    decreases f,
{
    match f {
        ComputeFunction::Zero(c) => match &**c {
            ConstantFunction::Constant(r, g, b) => {
                out.push(TAG_CONSTANT);
                push_decimal(out, *r);
                push_decimal(out, *g);
                push_decimal(out, *b);
                assert(final(out)@ =~= old(out)@ + encoded(*f));
            },
            ConstantFunction::Coord(dim) => {
                out.push(TAG_COORD);
                out.push(*dim);
                assert(final(out)@ =~= old(out)@ + encoded(*f));
            },
        },
        ComputeFunction::One(s) => {
            out.push(TAG_ONE);
            out.push(s.index());
            match &**s {
                SingleArgFunction::Sin(a)
                | SingleArgFunction::Cos(a)
                | SingleArgFunction::Tan(a)
                | SingleArgFunction::Atan(a)
                | SingleArgFunction::Sinh(a)
                | SingleArgFunction::Cosh(a)
                | SingleArgFunction::Abs(a)
                | SingleArgFunction::Reciprocal(a)
                | SingleArgFunction::Square(a)
                | SingleArgFunction::SquareRoot(a)
                | SingleArgFunction::Loge(a) => write_node(a, out),
            }
            proof {
                lemma_encoded_one(**s);
            }
            assert(final(out)@ =~= old(out)@ + encoded(*f));
        },
        ComputeFunction::Two(t) => {
            out.push(TAG_TWO);
            out.push(t.index());
            match &**t {
                TwoArgFunction::Add(a, b)
                | TwoArgFunction::Subtract(a, b)
                | TwoArgFunction::Multiply(a, b)
                | TwoArgFunction::Divide(a, b)
                | TwoArgFunction::Min(a, b)
                | TwoArgFunction::Max(a, b)
                | TwoArgFunction::Avg(a, b)
                | TwoArgFunction::Mod(a, b)
                | TwoArgFunction::Exponent(a, b)
                | TwoArgFunction::And(a, b)
                | TwoArgFunction::Or(a, b)
                | TwoArgFunction::Xor(a, b) => {
                    write_node(a, out);
                    write_node(b, out);
                },
            }
            proof {
                lemma_encoded_two(**t);
            }
            assert(final(out)@ =~= old(out)@ + encoded(*f));
        },
        ComputeFunction::Placeholder => {
            out.push(TAG_PLACEHOLDER);
            assert(final(out)@ =~= old(out)@ + encoded(*f));
        },
    }
}

fn read_word(b: &[u8], pos: usize) -> (r: u32)
    requires
        pos + 4 <= b@.len(),
    ensures
        word_bytes(r) == b@.subrange(pos as int, pos + 4),
{
    let (b0, b1, b2, b3) = (b[pos], b[pos + 1], b[pos + 2], b[pos + 3]);
    let r = (b0 as u32) | ((b1 as u32) << 8u32) | ((b2 as u32) << 16u32) | ((b3 as u32) << 24u32);
    assert((r & 0xff) as u8 == b0 && ((r >> 8u32) & 0xff) as u8 == b1 && ((r >> 16u32) & 0xff) as u8
        == b2 && ((r >> 24u32) & 0xff) as u8 == b3) by (bit_vector)
        requires
            r == (b0 as u32) | ((b1 as u32) << 8u32) | ((b2 as u32) << 16u32) | ((b3 as u32)
                << 24u32),
    ;
    assert(word_bytes(r) =~= b@.subrange(pos as int, pos + 4));
    r
}

fn read_decimal(b: &[u8], pos: usize) -> (r: Option<Decimal>)
    requires
        pos + 6 <= b@.len(),
    ensures
        r matches Some(d) ==> decimal_bytes(d) == b@.subrange(pos as int, pos + 6),
        forall|d: Decimal|
            decimal_bytes(d) == b@.subrange(pos as int, pos + 6) ==> r == Some(d),
{
    let negative = if b[pos] == 0 {
        false
    } else if b[pos] == 1 {
        true
    } else {
        assert forall|d: Decimal| decimal_bytes(d) == b@.subrange(pos as int, pos + 6) implies false by {
            assert(decimal_bytes(d)[0] == b@[pos as int]);
        }
        return None;
    };
    let digits = read_word(b, pos + 1);
    let d = Decimal { negative, digits, scale: b[pos + 5] };
    assert(decimal_bytes(d) =~= b@.subrange(pos as int, pos + 6));
    assert forall|e: Decimal| decimal_bytes(e) == b@.subrange(pos as int, pos + 6) implies Some(d)
        == Some(e) by {
        lemma_decimal_injective(d, e);
    }
    Some(d)
}

/// Whether `b[pos..end]` is the encoding of `f`.
pub open spec fn encodes_at(b: Seq<u8>, pos: int, end: int, f: ComputeFunction) -> bool {
    0 <= pos <= end <= b.len() && b.subrange(pos, end) == encoded(f)
}

proof fn lemma_encodes_split(b: Seq<u8>, pos: int, end: int, f: ComputeFunction, k: int)
    requires
        encodes_at(b, pos, end, f),
        0 <= k <= encoded(f).len(),
    ensures
        b.subrange(pos + k, end) == encoded(f).subrange(k, encoded(f).len() as int),
        forall|i: int| 0 <= i < k ==> b[pos + i] == encoded(f)[i],
{
    assert(b.subrange(pos + k, end) =~= encoded(f).subrange(k, encoded(f).len() as int));
    assert forall|i: int| 0 <= i < k implies b[pos + i] == encoded(f)[i] by {
        assert(b.subrange(pos, end)[i] == b[pos + i]);
    }
}

fn read_node(b: &[u8], pos: usize) -> (r: Option<(ComputeFunction, usize)>)
    requires
        pos <= b@.len(),
    ensures
        r matches Some((f, end)) ==> pos < end && encodes_at(b@, pos as int, end as int, f),
        forall|f: ComputeFunction, end: int|
            #[trigger] encodes_at(b@, pos as int, end, f) ==> r == Some((f, end as usize)),
    decreases b@.len() - pos, 1nat,
{
    if pos >= b.len() {
        assert forall|f: ComputeFunction, end: int| #[trigger] encodes_at(b@, pos as int, end, f) implies false by {
            lemma_encoded_head(f);
        }
        return None;
    }
    let tag = b[pos];
    assert forall|f: ComputeFunction, end: int| #[trigger] encodes_at(b@, pos as int, end, f) implies tag_of(f) == tag by {
        lemma_encoded_head(f);
        lemma_encodes_split(b@, pos as int, end, f, 1);
    }
    if tag == TAG_PLACEHOLDER {
        let f = ComputeFunction::Placeholder;
        assert(b@.subrange(pos as int, pos + 1) =~= encoded(f));
        assert forall|g: ComputeFunction, end: int| #[trigger] encodes_at(b@, pos as int, end, g) implies Some((f, (pos + 1) as usize)) == Some((g, end as usize)) by {
            assert(g is Placeholder);
        }
        Some((f, pos + 1))
    } else if tag == TAG_COORD {
        if b.len() - pos < 2 {
            assert forall|g: ComputeFunction, end: int| #[trigger] encodes_at(b@, pos as int, end, g) implies false by {
                if let ComputeFunction::Zero(c) = g {
                    if let ConstantFunction::Constant(x, y, z) = *c {
                        assert(encoded(g).len() == 19);
                    } else {
                        assert(encoded(g).len() == 2);
                    }
                }
            }
            return None;
        }
        let f = ComputeFunction::Zero(Box::new(ConstantFunction::Coord(b[pos + 1])));
        assert(b@.subrange(pos as int, pos + 2) =~= encoded(f));
        assert forall|g: ComputeFunction, end: int| #[trigger] encodes_at(b@, pos as int, end, g) implies Some((f, (pos + 2) as usize)) == Some((g, end as usize)) by {
            lemma_encodes_split(b@, pos as int, end, g, 2);
        }
        Some((f, pos + 2))
    } else if tag == TAG_CONSTANT {
        if b.len() - pos < 19 {
            assert forall|g: ComputeFunction, end: int| #[trigger] encodes_at(b@, pos as int, end, g) implies false by {
                if let ComputeFunction::Zero(c) = g {
                    if let ConstantFunction::Constant(x, y, z) = *c {
                        assert(encoded(g).len() == 19);
                    } else {
                        assert(encoded(g).len() == 2);
                    }
                }
            }
            return None;
        }
        let r = read_decimal(b, pos + 1);
        let g = read_decimal(b, pos + 7);
        let bb = read_decimal(b, pos + 13);
        assert forall|h: ComputeFunction, end: int| #[trigger] encodes_at(b@, pos as int, end, h) implies {
            &&& end == pos + 19
            &&& h matches ComputeFunction::Zero(c) && *c matches ConstantFunction::Constant(x, y, z)
                && r == Some(x) && g == Some(y) && bb == Some(z)
        } by {
            if let ComputeFunction::Zero(c) = h {
                if let ConstantFunction::Constant(x, y, z) = *c {
                    let e = encoded(h);
                    assert(e =~= seq![TAG_CONSTANT] + decimal_bytes(x) + decimal_bytes(y)
                        + decimal_bytes(z));
                    let w = b@.subrange(pos as int, end);
                    assert(w.subrange(1, 7) =~= b@.subrange(pos + 1, pos + 7));
                    assert(w.subrange(7, 13) =~= b@.subrange(pos + 7, pos + 13));
                    assert(w.subrange(13, 19) =~= b@.subrange(pos + 13, pos + 19));
                    assert(e.subrange(1, 7) =~= decimal_bytes(x));
                    assert(e.subrange(7, 13) =~= decimal_bytes(y));
                    assert(e.subrange(13, 19) =~= decimal_bytes(z));
                }
            }
        }
        match (r, g, bb) {
            (Some(r), Some(g), Some(bb)) => {
                let f = ComputeFunction::Zero(Box::new(ConstantFunction::Constant(r, g, bb)));
                assert(b@.subrange(pos as int, pos + 19) =~= encoded(f));
                Some((f, pos + 19))
            },
            _ => None,
        }
    } else if tag == TAG_ONE {
        read_one(b, pos)
    } else if tag == TAG_TWO {
        read_two(b, pos)
    } else {
        None
    }
}

fn read_one(b: &[u8], pos: usize) -> (r: Option<(ComputeFunction, usize)>)
    requires
        pos < b@.len(),
        b@[pos as int] == TAG_ONE,
    ensures
        r matches Some((f, end)) ==> pos < end && encodes_at(b@, pos as int, end as int, f),
        forall|f: ComputeFunction, end: int|
            #[trigger] encodes_at(b@, pos as int, end, f) ==> r == Some((f, end as usize)),
    decreases b@.len() - pos, 0nat,
{
    assert forall|f: ComputeFunction, end: int| #[trigger] encodes_at(b@, pos as int, end, f) implies tag_of(f) == TAG_ONE by {
        lemma_encoded_head(f);
        lemma_encodes_split(b@, pos as int, end, f, 1);
    }
    if b.len() - pos < 2 || b[pos + 1] >= UNARY_OPERATORS {
        assert forall|g: ComputeFunction, end: int| #[trigger] encodes_at(b@, pos as int, end, g) implies false by {
            if let ComputeFunction::One(s) = g {
                lemma_encoded_one(*s);
                lemma_encoded_head(unary_arg(*s));
                lemma_encodes_split(b@, pos as int, end, g, 2);
                assert(encoded(g)[1] == unary_index(*s) as u8);
                assert(b@[pos + 1] == unary_index(*s) as u8);
            }
        }
        return None;
    }
    let op = b[pos + 1];
    let child = read_node(b, pos + 2);
    assert forall|g: ComputeFunction, end: int| #[trigger] encodes_at(b@, pos as int, end, g) implies {
        g matches ComputeFunction::One(s) && unary_index(*s) == op && child == Some(
            (unary_arg(*s), end as usize),
        )
    } by {
        if let ComputeFunction::One(s) = g {
            lemma_encoded_one(*s);
            lemma_encodes_split(b@, pos as int, end, g, 2);
            assert(encoded(g)[1] == unary_index(*s) as u8);
            assert(b@[pos + 1] == unary_index(*s) as u8);
            assert(encoded(g).subrange(2, encoded(g).len() as int) =~= encoded(unary_arg(*s)));
            assert(encodes_at(b@, pos + 2, end, unary_arg(*s)));
        }
    }
    match child {
        Some((a, end)) => {
            let s = SingleArgFunction::from_index(op, a);
            let f = ComputeFunction::One(Box::new(s));
            proof {
                lemma_encoded_one(s);
            }
            assert(b@.subrange(pos as int, end as int) =~= encoded(f));
            assert forall|g: ComputeFunction, e: int| #[trigger] encodes_at(b@, pos as int, e, g) implies Some((f, end)) == Some((g, e as usize)) by {
                if let ComputeFunction::One(s2) = g {
                    lemma_unary_determined(s, *s2);
                }
            }
            Some((f, end))
        },
        None => None,
    }
}

fn read_two(b: &[u8], pos: usize) -> (r: Option<(ComputeFunction, usize)>)
    requires
        pos < b@.len(),
        b@[pos as int] == TAG_TWO,
    ensures
        r matches Some((f, end)) ==> pos < end && encodes_at(b@, pos as int, end as int, f),
        forall|f: ComputeFunction, end: int|
            #[trigger] encodes_at(b@, pos as int, end, f) ==> r == Some((f, end as usize)),
    decreases b@.len() - pos, 0nat,
{
    assert forall|f: ComputeFunction, end: int| #[trigger] encodes_at(b@, pos as int, end, f) implies tag_of(f) == TAG_TWO by {
        lemma_encoded_head(f);
        lemma_encodes_split(b@, pos as int, end, f, 1);
    }
    if b.len() - pos < 2 || b[pos + 1] >= BINARY_OPERATORS {
        assert forall|g: ComputeFunction, end: int| #[trigger] encodes_at(b@, pos as int, end, g) implies false by {
            if let ComputeFunction::Two(t) = g {
                lemma_encoded_two(*t);
                lemma_encoded_head(binary_first(*t));
                lemma_encoded_head(binary_second(*t));
                lemma_encodes_split(b@, pos as int, end, g, 2);
                assert(encoded(g)[1] == binary_index(*t) as u8);
                assert(b@[pos + 1] == binary_index(*t) as u8);
            }
        }
        return None;
    }
    let op = b[pos + 1];
    let first = read_node(b, pos + 2);
    let (a, mid) = match first {
        Some(p) => p,
        None => {
            assert forall|g: ComputeFunction, end: int| #[trigger] encodes_at(b@, pos as int, end, g) implies false by {
                if let ComputeFunction::Two(t) = g {
                    lemma_encoded_two(*t);
                    lemma_encodes_split(b@, pos as int, end, g, 2);
                    let ea = encoded(binary_first(*t));
                    assert(b@.subrange(pos + 2, pos + 2 + ea.len()) =~= ea);
                    assert(encodes_at(b@, pos + 2, pos + 2 + ea.len(), binary_first(*t)));
                }
            }
            return None;
        },
    };
    let second = read_node(b, mid);
    assert forall|g: ComputeFunction, end: int| #[trigger] encodes_at(b@, pos as int, end, g) implies {
        g matches ComputeFunction::Two(t) && binary_index(*t) == op && binary_first(*t) == a
            && second == Some((binary_second(*t), end as usize))
    } by {
        if let ComputeFunction::Two(t) = g {
            lemma_encoded_two(*t);
            lemma_encodes_split(b@, pos as int, end, g, 2);
            assert(encoded(g)[1] == binary_index(*t) as u8);
            assert(b@[pos + 1] == binary_index(*t) as u8);
            let ea = encoded(binary_first(*t));
            let eb = encoded(binary_second(*t));
            assert(b@.subrange(pos + 2, pos + 2 + ea.len()) =~= ea);
            assert(encodes_at(b@, pos + 2, pos + 2 + ea.len(), binary_first(*t)));
            assert(encoded(g).subrange(2, encoded(g).len() as int) =~= ea + eb);
            assert(b@.subrange(pos + 2, end) == ea + eb);
            assert(mid == pos + 2 + ea.len());
            assert(b@.subrange(mid as int, end) =~= (ea + eb).subrange(
                ea.len() as int,
                (ea + eb).len() as int,
            ));
            assert(b@.subrange(mid as int, end) =~= eb);
            assert(encodes_at(b@, mid as int, end, binary_second(*t)));
        }
    }
    match second {
        Some((c, end)) => {
            let t = TwoArgFunction::from_index(op, a, c);
            let f = ComputeFunction::Two(Box::new(t));
            proof {
                lemma_encoded_two(t);
            }
            assert(b@.subrange(pos as int, end as int) =~= encoded(f));
            assert forall|g: ComputeFunction, e: int| #[trigger] encodes_at(b@, pos as int, e, g) implies Some((f, end)) == Some((g, e as usize)) by {
                if let ComputeFunction::Two(t2) = g {
                    lemma_binary_determined(t, *t2);
                }
            }
            Some((f, end))
        },
        None => None,
    }
}

impl ComputeFunction {
    /// The byte encoding of the tree.
    pub fn to_bytes(&self) -> (r: Vec<u8>)
        ensures
            r@ == encoded(*self),
    {
        let mut out: Vec<u8> = Vec::new();
        write_node(self, &mut out);
        assert(out@ =~= encoded(*self));
        out
    }

    /// The tree that `b` encodes, or `None` when `b` encodes no tree.
    pub fn from_bytes(b: &[u8]) -> (r: Option<ComputeFunction>)
        ensures
            r == decoded(b@),
    {
        let parsed = read_node(b, 0);
        match parsed {
            Some((f, end)) => {
                if end == b.len() {
                    assert(b@.subrange(0, b@.len() as int) =~= b@);
                    proof {
                        lemma_round_trip(f);
                    }
                    Some(f)
                } else {
                    proof {
                        if exists|g: ComputeFunction| encoded(g) == b@ {
                            let g = choose|g: ComputeFunction| encoded(g) == b@;
                            assert(b@.subrange(0, b@.len() as int) =~= b@);
                            assert(encodes_at(b@, 0, b@.len() as int, g));
                        }
                    }
                    None
                }
            },
            None => {
                proof {
                    if exists|g: ComputeFunction| encoded(g) == b@ {
                        let g = choose|g: ComputeFunction| encoded(g) == b@;
                        assert(b@.subrange(0, b@.len() as int) =~= b@);
                        assert(encodes_at(b@, 0, b@.len() as int, g));
                    }
                }
                None
            },
        }
    }
}

} // verus!
