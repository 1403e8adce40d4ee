use vstd::prelude::*;

verus! {

/// One symbol of a Whitespace program: space, tab or line feed.
#[derive(Debug, PartialEq, Eq, Structural, Clone, Copy)]
pub enum WSC {
    S,
    T,
    L,
}

/// The symbol that a byte of source text stands for, if any.
pub open spec fn token_of(b: u8) -> Option<WSC> {
    if b == 32 {
        Some(WSC::S)
    } else if b == 9 {
        Some(WSC::T)
    } else if b == 10 {
        Some(WSC::L)
    } else {
        None
    }
}

/// The byte that writes a symbol in source text.
pub open spec fn byte_of(t: WSC) -> u8 {
    match t {
        WSC::S => 32,
        WSC::T => 9,
        WSC::L => 10,
    }
}

/// The symbols of a source text, in order; every other byte is a comment.
pub open spec fn spec_convert(bytes: Seq<u8>) -> Seq<WSC>
    decreases bytes.len(),
{
    if bytes.len() == 0 {
        Seq::empty()
    } else {
        let rest = spec_convert(bytes.drop_last());
        match token_of(bytes.last()) {
            Some(t) => rest.push(t),
            None => rest,
        }
    }
}

/// The source text that writes a sequence of symbols, one byte each.
pub open spec fn spec_encode(syms: Seq<WSC>) -> Seq<u8> {
    syms.map_values(|t: WSC| byte_of(t))
}

/// Turns source text into the program's symbols, skipping every byte that is
/// not a space, a tab or a line feed.
pub fn convert(v: Vec<u8>) -> (r: Vec<WSC>)
    ensures
        r@ == spec_convert(v@),
{
    let mut new_vec: Vec<WSC> = Vec::new();
    let mut i: usize = 0;
    while i < v.len()
        invariant
            i <= v.len(),
            new_vec@ == spec_convert(v@.take(i as int)),
        decreases v.len() - i,
    {
        assert(v@.take(i + 1).drop_last() =~= v@.take(i as int));
        let b = v[i];
        if b == 32 {
            new_vec.push(WSC::S);
        } else if b == 9 {
            new_vec.push(WSC::T);
        } else if b == 10 {
            new_vec.push(WSC::L);
        }
        i += 1;
    }
    assert(v@.take(v.len() as int) =~= v@);
    new_vec
}

/// Converting joined texts gives the joined symbol sequences.
pub proof fn lemma_convert_concat(a: Seq<u8>, b: Seq<u8>)
    ensures
        spec_convert(a + b) == spec_convert(a) + spec_convert(b),
    decreases b.len(),
{
    if b.len() == 0 {
        assert(a + b =~= a);
        assert(spec_convert(a) + spec_convert(b) =~= spec_convert(a));
    } else {
        lemma_convert_concat(a, b.drop_last());
        assert((a + b).drop_last() =~= a + b.drop_last());
        assert((a + b).last() == b.last());
        match token_of(b.last()) {
            Some(t) => {
                assert(spec_convert(a) + spec_convert(b.drop_last()).push(t) =~= (spec_convert(a)
                    + spec_convert(b.drop_last())).push(t));
            },
            None => {},
        }
    }
}

/// A byte that is not a space, a tab or a line feed changes nothing, wherever
/// it stands.
pub proof fn lemma_convert_ignores_comment(a: Seq<u8>, x: u8, b: Seq<u8>)
    requires
        token_of(x) is None,
    ensures
        spec_convert(a + seq![x] + b) == spec_convert(a + b),
{
    lemma_convert_concat(a + seq![x], b);
    lemma_convert_concat(a, seq![x]);
    lemma_convert_concat(a, b);
    assert(seq![x].drop_last() =~= Seq::<u8>::empty());
    assert(seq![x].last() == x);
    assert(spec_convert(Seq::<u8>::empty()) =~= Seq::<WSC>::empty());
    assert(spec_convert(seq![x]) =~= Seq::<WSC>::empty());
    assert(spec_convert(a) + spec_convert(seq![x]) =~= spec_convert(a));
}

/// Reading back the text that writes a sequence of symbols gives that sequence.
pub proof fn lemma_convert_encode(syms: Seq<WSC>)
    ensures
        spec_convert(spec_encode(syms)) == syms,
    decreases syms.len(),
{
    if syms.len() > 0 {
        lemma_convert_encode(syms.drop_last());
        assert(spec_encode(syms).drop_last() =~= spec_encode(syms.drop_last()));
        assert(spec_encode(syms).last() == byte_of(syms.last()));
        assert(spec_convert(spec_encode(syms.drop_last())).push(syms.last()) =~= syms);
    } else {
        assert(spec_encode(syms) =~= Seq::<u8>::empty());
    }
}

} // verus!
