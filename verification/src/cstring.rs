use vstd::prelude::*;

verus! {

/// The buffer after its first `n` bytes are replaced by the first `n` bytes of `src`.
pub open spec fn copied(dest: Seq<u8>, src: Seq<u8>, n: int) -> Seq<u8> {
    src.subrange(0, n) + dest.subrange(n, dest.len() as int)
}

/// The first `n` bytes of the two buffers are equal.
pub open spec fn same_prefix(a: Seq<u8>, b: Seq<u8>, n: usize) -> bool {
    a.subrange(0, n as int) == b.subrange(0, n as int)
}

proof fn lemma_same_prefix_step(a: Seq<u8>, b: Seq<u8>, i: usize)
    requires
        i < a.len(),
        i < b.len(),
        i < usize::MAX,
        same_prefix(a, b, i),
        a[i as int] == b[i as int],
    ensures
        same_prefix(a, b, (i + 1) as usize),
{
    assert(a.subrange(0, i + 1) =~= b.subrange(0, i + 1)) by {
        assert forall|k: int| 0 <= k < i + 1 implies #[trigger] a.subrange(0, i + 1)[k]
            == b.subrange(0, i + 1)[k] by {
            if k < i {
                assert(a.subrange(0, i as int)[k] == b.subrange(0, i as int)[k]);
            }
        }
    }
}

proof fn lemma_differ_at(a: Seq<u8>, b: Seq<u8>, i: usize, n: usize)
    requires
        i < n,
        n <= a.len(),
        n <= b.len(),
        a[i as int] != b[i as int],
    ensures
        !same_prefix(a, b, n),
{
    assert(a.subrange(0, n as int)[i as int] != b.subrange(0, n as int)[i as int]);
}

/// Whether the first `n` bytes of the two buffers are equal.
pub fn memcmp(str1: &[u8], str2: &[u8], n: usize) -> (r: bool)
    requires
        n <= str1@.len(),
        n <= str2@.len(),
    ensures
        r == same_prefix(str1@, str2@, n),
{
    let mut i: usize = 0;
    proof {
        assert(str1@.subrange(0, 0) =~= str2@.subrange(0, 0));
    }
    while i < n
        invariant
            i <= n,
            n <= str1@.len(),
            n <= str2@.len(),
            same_prefix(str1@, str2@, i),
        decreases n - i,
    {
        if str1[i] != str2[i] {
            proof {
                lemma_differ_at(str1@, str2@, i, n);
            }
            return false;
        }
        proof {
            lemma_same_prefix_step(str1@, str2@, i);
        }
        i = i + 1;
    }
    true
}

/// Copies the first `n` bytes of `src` over the first `n` bytes of `dest`.
pub fn memcpy(dest: &mut Vec<u8>, src: &[u8], n: usize)
    requires
        n <= old(dest)@.len(),
        n <= src@.len(),
    ensures
        final(dest)@ == copied(old(dest)@, src@, n as int),
{
    let mut i: usize = 0;
    while i < n
        invariant
            i <= n,
            n <= dest@.len(),
            n <= src@.len(),
            dest@.len() == old(dest)@.len(),
            forall|k: int| 0 <= k < i ==> #[trigger] dest@[k] == src@[k],
            forall|k: int| i <= k < dest@.len() ==> #[trigger] dest@[k] == old(dest)@[k],
        decreases n - i,
    {
        dest.set(i, src[i]);
        i = i + 1;
    }
    proof {
        assert(dest@ =~= copied(old(dest)@, src@, n as int));
    }
}

/// Copies the first `n` bytes of `src` over the first `n` bytes of `dest`. The two buffers
/// are distinct borrows, so the regions never overlap and the copy always takes place.
pub fn memmove(dest: &mut Vec<u8>, src: &[u8], n: usize)
    requires
        n <= old(dest)@.len(),
        n <= src@.len(),
    ensures
        final(dest)@ == copied(old(dest)@, src@, n as int),
{
    memcpy(dest, src, n);
}

} // verus!
