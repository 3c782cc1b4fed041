use vstd::prelude::*;

verus! {

/// The ASCII uppercase of one byte; bytes outside `a..=z` pass unchanged.
pub open spec fn upper_byte_spec(b: u8) -> u8 {
    if 97 <= b <= 122 {
        (b - 32) as u8
    } else {
        b
    }
}

/// Byte-wise ASCII uppercase of a whole body.
pub open spec fn upper_bytes(s: Seq<u8>) -> Seq<u8> {
    s.map_values(|b: u8| upper_byte_spec(b))
}

/// Uppercases one body chunk independently of every other chunk.
pub fn uppercase_chunk(chunk: &[u8]) -> (r: Vec<u8>)
    ensures
        r@ == upper_bytes(chunk@),
{
    let n = chunk.len();
    let mut r: Vec<u8> = Vec::new();
    let mut i: usize = 0;
    while i < n
        invariant
            n == chunk@.len(),
            0 <= i <= n,
            r@ == upper_bytes(chunk@.take(i as int)),
        decreases n - i,
    {
        let b = chunk[i];
        if 97 <= b && b <= 122 {
            r.push(b - 32);
        } else {
            r.push(b);
        }
        proof {
            assert(r@ =~= upper_bytes(chunk@.take(i + 1)));
        }
        i = i + 1;
    }
    proof {
        assert(chunk@.take(n as int) =~= chunk@);
    }
    r
}

/// Reverses a fully buffered body; total over every byte sequence,
/// the empty one included.
pub fn reverse_bytes(body: &[u8]) -> (r: Vec<u8>)
    ensures
        r@ == body@.reverse(),
{
    let n = body.len();
    let mut r: Vec<u8> = Vec::new();
    let mut i: usize = 0;
    while i < n
        invariant
            n == body@.len(),
            0 <= i <= n,
            r@.len() == i,
            forall|j: int| 0 <= j < i ==> r@[j] == body@[n - 1 - j],
        decreases n - i,
    {
        r.push(body[n - 1 - i]);
        i = i + 1;
    }
    proof {
        assert(r@ =~= body@.reverse());
    }
    r
}

/// Law: uppercasing is chunk-local and chunk-order-preserving, and the
/// concatenation of the uppercased chunks equals the byte-wise uppercase of
/// the concatenated body, for any chunking of the same logical body.
pub proof fn lemma_uppercase_chunking(chunks: Seq<Seq<u8>>)
    ensures
        chunks.map_values(|c: Seq<u8>| upper_bytes(c)).len() == chunks.len(),
        forall|i: int|
            0 <= i < chunks.len() ==> chunks.map_values(|c: Seq<u8>| upper_bytes(c))[i]
                == upper_bytes(chunks[i]),
        chunks.map_values(|c: Seq<u8>| upper_bytes(c)).flatten() == upper_bytes(chunks.flatten()),
    decreases chunks.len(),
{
    let mapped = chunks.map_values(|c: Seq<u8>| upper_bytes(c));
    if chunks.len() == 0 {
        assert(mapped.flatten() =~= upper_bytes(chunks.flatten()));
    } else {
        lemma_uppercase_chunking(chunks.drop_first());
        assert(mapped.drop_first() =~= chunks.drop_first().map_values(
            |c: Seq<u8>| upper_bytes(c),
        ));
        assert(mapped.flatten() == upper_bytes(chunks.first()) + mapped.drop_first().flatten());
        assert(upper_bytes(chunks.first()) + upper_bytes(chunks.drop_first().flatten())
            =~= upper_bytes(chunks.first() + chunks.drop_first().flatten()));
    }
}

/// Law: reversing is an involution; reversing twice reproduces the original
/// bytes, for any input including the empty body.
pub proof fn lemma_reverse_involution(s: Seq<u8>)
    ensures
        s.reverse().reverse() == s,
{
    assert(s.reverse().reverse() =~= s);
}

} // verus!
