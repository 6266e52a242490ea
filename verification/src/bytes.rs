use vstd::prelude::*;

verus! {

/// The byte views of a sequence of byte vectors.
pub open spec fn views(v: Seq<Vec<u8>>) -> Seq<Seq<u8>> {
    v.map_values(|x: Vec<u8>| x@)
}

/// The pieces of `s` between the occurrences of `sep`, in order.
/// There is always one piece more than there are separators, so the empty
/// sequence gives one empty piece.
pub open spec fn split_bytes(s: Seq<u8>, sep: u8) -> Seq<Seq<u8>>
    decreases s.len(),
{
    if s.len() == 0 {
        seq![Seq::empty()]
    } else {
        let prefix = split_bytes(s.drop_last(), sep);
        if s.last() == sep {
            prefix.push(Seq::empty())
        } else {
            prefix.update(prefix.len() - 1, prefix.last().push(s.last()))
        }
    }
}

pub proof fn lemma_split_nonempty(s: Seq<u8>, sep: u8)
    ensures
        split_bytes(s, sep).len() >= 1,
    decreases s.len(),
{
    if s.len() > 0 {
        lemma_split_nonempty(s.drop_last(), sep);
    }
}

/// Splits `s` at every `sep` byte.
pub fn split(s: &[u8], sep: u8) -> (pieces: Vec<Vec<u8>>)
    ensures
        views(pieces@) == split_bytes(s@, sep),
{
    let mut pieces: Vec<Vec<u8>> = Vec::new();
    let mut cur: Vec<u8> = Vec::new();
    let mut i: usize = 0;
    while i < s.len()
        invariant
            0 <= i <= s@.len(),
            views(pieces@).push(cur@) == split_bytes(s@.take(i as int), sep),
        decreases s@.len() - i,
    {
        proof {
            assert(s@.take(i + 1).drop_last() == s@.take(i as int));
            lemma_split_nonempty(s@.take(i as int), sep);
        }
        let b = s[i];
        if b == sep {
            pieces.push(cur);
            cur = Vec::new();
            assert(views(pieces@).push(cur@) == split_bytes(s@.take(i + 1), sep));
        } else {
            cur.push(b);
            assert(views(pieces@).push(cur@) == split_bytes(s@.take(i + 1), sep));
        }
        i += 1;
    }
    assert(s@.take(s@.len() as int) == s@);
    pieces.push(cur);
    pieces
}


/// `pieces` put back together with `sep` between neighbours.
pub open spec fn join_bytes(pieces: Seq<Seq<u8>>, sep: u8) -> Seq<u8>
    decreases pieces.len(),
{
    if pieces.len() == 0 {
        Seq::empty()
    } else if pieces.len() == 1 {
        pieces[0]
    } else {
        join_bytes(pieces.drop_last(), sep).push(sep) + pieces.last()
    }
}

/// Splitting loses nothing: the pieces hold no separator, and joining them
/// with the separator gives back the bytes that were split.
pub proof fn lemma_split_join(s: Seq<u8>, sep: u8)
    ensures
        join_bytes(split_bytes(s, sep), sep) == s,
        forall|i: int|
            0 <= i < split_bytes(s, sep).len() ==> !(#[trigger] split_bytes(s, sep)[i]).contains(
                sep,
            ),
    decreases s.len(),
{
    if s.len() == 0 {
        assert(split_bytes(s, sep)[0] =~= Seq::<u8>::empty());
        assert(join_bytes(split_bytes(s, sep), sep) =~= s);
    } else {
        let t = s.drop_last();
        let b = s.last();
        lemma_split_join(t, sep);
        lemma_split_nonempty(t, sep);
        let p = split_bytes(t, sep);
        let q = split_bytes(s, sep);
        if b == sep {
            assert(q.drop_last() =~= p);
            assert(join_bytes(q, sep) =~= s);
        } else {
            let x = p.last().push(b);
            assert(q.last() == x);
            if p.len() == 1 {
                assert(join_bytes(q, sep) =~= s);
            } else {
                assert(q.drop_last() =~= p.drop_last());
                assert(join_bytes(q, sep) =~= join_bytes(p.drop_last(), sep).push(sep) + x);
                let a = join_bytes(p.drop_last(), sep).push(sep);
                assert(join_bytes(p, sep) == a + p.last());
                assert(a + x =~= (a + p.last()).push(b));
                assert(s =~= t.push(b));
                assert(join_bytes(q, sep) =~= s);
            }
            assert forall|i: int| 0 <= i < q.len() implies !(#[trigger] q[i]).contains(sep) by {
                if i == q.len() - 1 {
                    if x.contains(sep) {
                        let j = choose|j: int| 0 <= j < x.len() && x[j] == sep;
                        assert(p.last()[j] == sep);
                    }
                } else {
                    assert(q[i] == p[i]);
                }
            }
        }
    }
}

/// Whether `a` and `b` hold the same bytes.
pub fn bytes_eq(a: &[u8], b: &[u8]) -> (r: bool)
    ensures
        r == (a@ == b@),
{
    if a.len() != b.len() {
        return false;
    }
    let mut i: usize = 0;
    while i < a.len()
        invariant
            a@.len() == b@.len(),
            0 <= i <= a@.len(),
            a@.take(i as int) == b@.take(i as int),
        decreases a@.len() - i,
    {
        if a[i] != b[i] {
            assert(a@.take(i + 1)[i as int] != b@.take(i + 1)[i as int]);
            return false;
        }
        assert(a@.take(i + 1) =~= b@.take(i + 1));
        i += 1;
    }
    assert(a@ =~= a@.take(i as int));
    assert(b@ =~= b@.take(i as int));
    true
}

/// Whether `s` begins with `prefix`.
pub open spec fn has_prefix(s: Seq<u8>, prefix: Seq<u8>) -> bool {
    prefix.len() <= s.len() && s.take(prefix.len() as int) == prefix
}

pub fn starts_with(s: &[u8], prefix: &[u8]) -> (r: bool)
    ensures
        r == has_prefix(s@, prefix@),
{
    if prefix.len() > s.len() {
        return false;
    }
    let head = vstd::slice::slice_subrange(s, 0, prefix.len());
    assert(head@ =~= s@.take(prefix@.len() as int));
    bytes_eq(head, prefix)
}

/// Appends the bytes of `src` to `dst`.
pub fn push_bytes(dst: &mut Vec<u8>, src: &[u8])
    ensures
        final(dst)@ == old(dst)@ + src@,
{
    let mut i: usize = 0;
    while i < src.len()
        invariant
            0 <= i <= src@.len(),
            dst@ == old(dst)@ + src@.take(i as int),
        decreases src@.len() - i,
    {
        dst.push(src[i]);
        assert(src@.take(i + 1) =~= src@.take(i as int).push(src@[i as int]));
        i += 1;
    }
    assert(src@.take(src@.len() as int) =~= src@);
}

/// A fresh vector holding the bytes of `src`.
pub fn to_vec(src: &[u8]) -> (v: Vec<u8>)
    ensures
        v@ == src@,
{
    let mut v: Vec<u8> = Vec::new();
    push_bytes(&mut v, src);
    assert(v@ =~= src@);
    v
}

/// Whether byte position `n` of `s` is where a character starts (or the end):
/// a UTF-8 text can be cut there.
pub open spec fn starts_char(s: Seq<u8>, n: int) -> bool {
    n == s.len() || (0 <= n < s.len() && !(0x80 <= s[n] <= 0xbf))
}


/// A piece free of the separator, put after a separator, becomes one more piece.
pub proof fn lemma_split_append_piece(a: Seq<u8>, l: Seq<u8>, sep: u8)
    requires
        !l.contains(sep),
    ensures
        split_bytes(a.push(sep) + l, sep) == split_bytes(a, sep).push(l),
    decreases l.len(),
{
    if l.len() == 0 {
        assert(a.push(sep) + l =~= a.push(sep));
        assert(a.push(sep).drop_last() =~= a);
        assert(l =~= Seq::<u8>::empty());
        assert(split_bytes(a.push(sep), sep) == split_bytes(a, sep).push(Seq::empty()));
    } else {
        let l2 = l.drop_last();
        assert(!l2.contains(sep)) by {
            if l2.contains(sep) {
                let j = choose|j: int| 0 <= j < l2.len() && l2[j] == sep;
                assert(l[j] == sep);
            }
        }
        lemma_split_append_piece(a, l2, sep);
        let s = a.push(sep) + l;
        assert(s.drop_last() =~= a.push(sep) + l2);
        assert(l.last() != sep) by {
            assert(l[l.len() - 1] == l.last());
        }
        assert(l2.push(l.last()) =~= l);
        assert(split_bytes(s, sep) =~= split_bytes(a, sep).push(l));
    }
}

/// Bytes without the separator are a single piece.
pub proof fn lemma_split_single(l: Seq<u8>, sep: u8)
    requires
        !l.contains(sep),
    ensures
        split_bytes(l, sep) == seq![l],
    decreases l.len(),
{
    if l.len() == 0 {
        assert(l =~= Seq::<u8>::empty());
        assert(split_bytes(l, sep) =~= seq![l]);
    } else {
        let l2 = l.drop_last();
        assert(!l2.contains(sep)) by {
            if l2.contains(sep) {
                let j = choose|j: int| 0 <= j < l2.len() && l2[j] == sep;
                assert(l[j] == sep);
            }
        }
        lemma_split_single(l2, sep);
        assert(l.last() != sep) by {
            assert(l[l.len() - 1] == l.last());
        }
        assert(l2.push(l.last()) =~= l);
        let p = split_bytes(l2, sep);
        assert(split_bytes(l, sep) == p.update(p.len() - 1, p.last().push(l.last())));
        assert(p.len() == 1);
        assert(p.last() == l2);
        let q = p.update(0, l2.push(l.last()));
        assert(q[0] == l);
        assert(split_bytes(l, sep) =~= seq![l]);
    }
}

/// Splitting undoes joining pieces that hold no separator.
pub proof fn lemma_split_of_join(pieces: Seq<Seq<u8>>, sep: u8)
    requires
        pieces.len() >= 1,
        forall|i: int| 0 <= i < pieces.len() ==> !(#[trigger] pieces[i]).contains(sep),
    ensures
        split_bytes(join_bytes(pieces, sep), sep) == pieces,
    decreases pieces.len(),
{
    if pieces.len() == 1 {
        lemma_split_single(pieces[0], sep);
        assert(seq![pieces[0]] =~= pieces);
    } else {
        let d = pieces.drop_last();
        assert forall|i: int| 0 <= i < d.len() implies !(#[trigger] d[i]).contains(sep) by {
            assert(d[i] == pieces[i]);
        }
        lemma_split_of_join(d, sep);
        assert(!pieces.last().contains(sep)) by {
            assert(pieces[pieces.len() - 1] == pieces.last());
        }
        lemma_split_append_piece(join_bytes(d, sep), pieces.last(), sep);
        assert(d.push(pieces.last()) =~= pieces);
    }
}

/// Two separator-free parts around one separator split back into the two.
pub proof fn lemma_split_pair(x: Seq<u8>, y: Seq<u8>, sep: u8)
    requires
        !x.contains(sep),
        !y.contains(sep),
    ensures
        split_bytes(x.push(sep) + y, sep) == seq![x, y],
{
    lemma_split_single(x, sep);
    lemma_split_append_piece(x, y, sep);
    assert(seq![x].push(y) =~= seq![x, y]);
}


/// Splitting two parts joined by a separator gives the pieces of the first
/// followed by the pieces of the second.
pub proof fn lemma_split_concat(x: Seq<u8>, y: Seq<u8>, sep: u8)
    ensures
        split_bytes(x.push(sep) + y, sep) == split_bytes(x, sep) + split_bytes(y, sep),
    decreases y.len(),
{
    lemma_split_nonempty(x, sep);
    if y.len() == 0 {
        assert(x.push(sep) + y =~= x.push(sep));
        assert(x.push(sep).drop_last() =~= x);
        assert(y =~= Seq::<u8>::empty());
        assert(split_bytes(y, sep) =~= seq![Seq::<u8>::empty()]);
        assert(split_bytes(x.push(sep), sep) == split_bytes(x, sep).push(Seq::empty()));
        assert(split_bytes(x, sep).push(Seq::empty()) =~= split_bytes(x, sep) + seq![
            Seq::<u8>::empty(),
        ]);
    } else {
        let y2 = y.drop_last();
        let b = y.last();
        lemma_split_concat(x, y2, sep);
        lemma_split_nonempty(y2, sep);
        let s = x.push(sep) + y;
        assert(s.drop_last() =~= x.push(sep) + y2);
        assert(s.last() == b);
        let px = split_bytes(x, sep);
        let py = split_bytes(y2, sep);
        if b == sep {
            assert(split_bytes(s, sep) == (px + py).push(Seq::empty()));
            assert(split_bytes(y, sep) == py.push(Seq::empty()));
            assert((px + py).push(Seq::empty()) =~= px + py.push(Seq::empty()));
        } else {
            let q = px + py;
            assert(split_bytes(s, sep) == q.update(q.len() - 1, q.last().push(b)));
            assert(split_bytes(y, sep) == py.update(py.len() - 1, py.last().push(b)));
            assert(q.last() == py.last());
            assert(q.update(q.len() - 1, q.last().push(b)) =~= px + py.update(
                py.len() - 1,
                py.last().push(b),
            ));
        }
    }
}

/// The number of separators in `s`.
pub open spec fn count_of(s: Seq<u8>, sep: u8) -> nat
    decreases s.len(),
{
    if s.len() == 0 {
        0
    } else {
        count_of(s.drop_last(), sep) + if s.last() == sep {
            1nat
        } else {
            0nat
        }
    }
}

/// There is one piece more than there are separators.
pub proof fn lemma_split_len(s: Seq<u8>, sep: u8)
    ensures
        split_bytes(s, sep).len() == count_of(s, sep) + 1,
    decreases s.len(),
{
    if s.len() > 0 {
        lemma_split_len(s.drop_last(), sep);
    }
}

} // verus!
