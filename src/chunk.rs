use vstd::prelude::*;
use vstd::slice::{slice_subrange, slice_to_vec};

verus! {

/// The pieces of `s` cut from the front, each `width` long but the last,
/// which holds what remains. An empty `s` gives no pieces.
pub open spec fn chunks_of(s: Seq<u8>, width: nat) -> Seq<Seq<u8>>
    decreases s.len(),
{
    if s.len() == 0 || width == 0 {
        seq![]
    } else if s.len() <= width {
        seq![s]
    } else {
        seq![s.take(width as int)] + chunks_of(s.skip(width as int), width)
    }
}

/// The pieces joined end to end, in order.
pub open spec fn flatten(chunks: Seq<Seq<u8>>) -> Seq<u8>
    decreases chunks.len(),
{
    if chunks.len() == 0 {
        seq![]
    } else {
        chunks[0] + flatten(chunks.drop_first())
    }
}

/// Every piece is between 1 and `width` long.
pub open spec fn chunks_bounded(chunks: Seq<Seq<u8>>, width: nat) -> bool {
    forall|i: int| 0 <= i < chunks.len() ==> 0 < #[trigger] chunks[i].len() <= width
}

pub open spec fn views(v: Seq<Vec<u8>>) -> Seq<Seq<u8>> {
    v.map_values(|c: Vec<u8>| c@)
}

/// Cutting loses nothing and keeps order; each piece respects the width;
/// the number of pieces is the length divided by the width, rounded up.
pub proof fn lemma_chunks_of(s: Seq<u8>, width: nat)
    requires
        width > 0,
    ensures
        flatten(chunks_of(s, width)) == s,
        chunks_bounded(chunks_of(s, width), width),
        chunks_of(s, width).len() == (s.len() + width - 1) / width as int,
    decreases s.len(),
{
    if s.len() == 0 {
        assert((0 + width - 1) / width as int == 0) by (nonlinear_arith)
            requires width > 0;
    } else if s.len() <= width {
        assert(flatten(seq![s]) == s + flatten(seq![s].drop_first()));
        assert(seq![s].drop_first() =~= seq![]);
        assert(s + seq![] =~= s);
        assert((s.len() + width - 1) / width as int == 1) by (nonlinear_arith)
            requires 0 < s.len() <= width;
    } else {
        let rest = s.skip(width as int);
        lemma_chunks_of(rest, width);
        let c = chunks_of(s, width);
        assert(c.drop_first() =~= chunks_of(rest, width));
        assert(c.len() == 1 + chunks_of(rest, width).len());
        assert(rest.len() == s.len() - width);
        assert(s.take(width as int) + rest =~= s);
        let n = s.len() as int;
        let w = width as int;
        assert((n + w - 1) / w == (n - w + w - 1) / w + 1) by (nonlinear_arith)
            requires n > w, w > 0;
    }
}

/// Cuts `s` into pieces of at most `width` bytes, in order.
pub fn split_chunks(s: &[u8], width: usize) -> (r: Vec<Vec<u8>>)
    requires
        width > 0,
    ensures
        views(r@) == chunks_of(s@, width as nat),
{
    let mut r: Vec<Vec<u8>> = Vec::new();
    let mut pos: usize = 0;
    assert(s@.skip(0) =~= s@);
    assert(views(r@) + chunks_of(s@, width as nat) =~= chunks_of(s@, width as nat));
    while pos < s.len()
        invariant
            width > 0,
            pos <= s@.len(),
            views(r@) + chunks_of(s@.skip(pos as int), width as nat) == chunks_of(s@, width as nat),
        decreases s@.len() - pos,
    {
        let ghost rest = s@.skip(pos as int);
        let end: usize = if s.len() - pos <= width { s.len() } else { pos + width };
        let piece = slice_to_vec(slice_subrange(s, pos, end));
        if s.len() - pos <= width {
            assert(piece@ =~= rest);
            assert(s@.skip(end as int) =~= seq![]);
            assert(chunks_of(rest, width as nat) == seq![rest]);
        } else {
            assert(piece@ =~= rest.take(width as int));
            assert(s@.skip(end as int) =~= rest.skip(width as int));
        }
        let ghost before = r@;
        r.push(piece);
        assert(views(r@) =~= views(before) + seq![piece@]);
        assert(views(r@) + chunks_of(s@.skip(end as int), width as nat) =~= views(before)
            + chunks_of(rest, width as nat));
        pos = end;
    }
    assert(s@.skip(pos as int) =~= seq![]);
    assert(views(r@) + seq![] =~= views(r@));
    r
}

pub(crate) proof fn lemma_flatten_push(c: Seq<Seq<u8>>, x: Seq<u8>)
    ensures
        flatten(c.push(x)) == flatten(c) + x,
    decreases c.len(),
{
    if c.len() == 0 {
        assert(c.push(x)[0] == x);
        assert(c.push(x).drop_first() =~= seq![]);
        assert(flatten(c.push(x).drop_first()) == Seq::<u8>::empty());
        assert(flatten(c) == Seq::<u8>::empty());
        assert(x + Seq::<u8>::empty() =~= x);
        assert(Seq::<u8>::empty() + x =~= x);
    } else {
        assert(c.push(x)[0] == c[0]);
        assert(c.push(x).drop_first() =~= c.drop_first().push(x));
        lemma_flatten_push(c.drop_first(), x);
        assert(c[0] + (flatten(c.drop_first()) + x) =~= (c[0] + flatten(c.drop_first())) + x);
    }
}

/// Joins the pieces end to end, in order.
pub fn concat_chunks(chunks: &Vec<Vec<u8>>) -> (r: Vec<u8>)
    ensures
        r@ == flatten(views(chunks@)),
{
    let mut r: Vec<u8> = Vec::new();
    let mut i: usize = 0;
    while i < chunks.len()
        invariant
            i <= chunks@.len(),
            r@ == flatten(views(chunks@.take(i as int))),
        decreases chunks@.len() - i,
    {
        proof {
            assert(views(chunks@.take(i as int + 1)) =~= views(chunks@.take(i as int)).push(chunks@[i as int]@));
            lemma_flatten_push(views(chunks@.take(i as int)), chunks@[i as int]@);
        }
        r.extend_from_slice(chunks[i].as_slice());
        i = i + 1;
    }
    assert(chunks@.take(i as int) =~= chunks@);
    r
}

} // verus!
