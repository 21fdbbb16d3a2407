use vstd::prelude::*;

verus! {

/// Whether two byte strings hold the same bytes.
pub fn bytes_eq(a: &Vec<u8>, b: &Vec<u8>) -> (r: bool)
    ensures
        r == (a@ == b@),
{
    if a.len() != b.len() {
        return false;
    }
    let mut i: usize = 0;
    while i < a.len()
        invariant
            a.len() == b.len(),
            i <= a.len(),
            forall|j: int| 0 <= j < i ==> a@[j] == b@[j],
        decreases a.len() - i,
    {
        if a[i] != b[i] {
            return false;
        }
        i = i + 1;
    }
    assert(a@ =~= b@);
    true
}

/// A fresh copy of a byte string.
pub fn copy_bytes(a: &Vec<u8>) -> (r: Vec<u8>)
    ensures
        r@ == a@,
{
    let r = a.clone();
    assert(r@ =~= a@);
    r
}


/// The bytes an optional byte string holds, if any.
pub open spec fn opt_bytes(o: Option<Vec<u8>>) -> Option<Seq<u8>> {
    match o {
        Some(b) => Some(b@),
        None => None,
    }
}

/// The abstract contents of a list of byte strings.
pub open spec fn bytes_list_view(v: Seq<Vec<u8>>) -> Seq<Seq<u8>> {
    v.map_values(|b: Vec<u8>| b@)
}

/// A fresh copy of a list of byte strings.
pub fn copy_bytes_list(v: &Vec<Vec<u8>>) -> (r: Vec<Vec<u8>>)
    ensures
        bytes_list_view(r@) == bytes_list_view(v@),
{
    let mut r: Vec<Vec<u8>> = Vec::new();
    let mut i: usize = 0;
    while i < v.len()
        invariant
            i <= v.len(),
            r@.len() == i,
            forall|j: int| 0 <= j < i ==> r@[j]@ == v@[j]@,
        decreases v.len() - i,
    {
        r.push(copy_bytes(&v[i]));
        i = i + 1;
    }
    assert(bytes_list_view(r@) =~= bytes_list_view(v@));
    r
}

/// The first position at which `x` occurs in `v`, if it occurs.
pub fn position_of(v: &Vec<Vec<u8>>, x: &Vec<u8>) -> (r: Option<usize>)
    ensures
        match r {
            Some(i) => i < v@.len() && v@[i as int]@ == x@ && forall|j: int|
                0 <= j < i ==> v@[j]@ != x@,
            None => forall|j: int| 0 <= j < v@.len() ==> v@[j]@ != x@,
        },
        r is None <==> !bytes_list_view(v@).contains(x@),
{
    let mut i: usize = 0;
    while i < v.len()
        invariant
            i <= v.len(),
            forall|j: int| 0 <= j < i ==> v@[j]@ != x@,
        decreases v.len() - i,
    {
        if bytes_eq(&v[i], x) {
            assert(bytes_list_view(v@)[i as int] == x@);
            return Some(i);
        }
        i = i + 1;
    }
    assert forall|j: int| 0 <= j < bytes_list_view(v@).len() implies bytes_list_view(v@)[j]
        != x@ by {
        assert(v@[j]@ != x@);
    }
    None
}

/// A byte string with its leading zero bytes dropped: the big-endian digits of
/// the number it stands for.
pub open spec fn strip_leading_zeros(s: Seq<u8>) -> Seq<u8>
    decreases s.len(),
{
    if s.len() > 0 && s[0] == 0 {
        strip_leading_zeros(s.drop_first())
    } else {
        s
    }
}

/// Whether two big-endian byte strings stand for the same number.
pub open spec fn same_number(a: Seq<u8>, b: Seq<u8>) -> bool {
    strip_leading_zeros(a) == strip_leading_zeros(b)
}

/// Whether a big-endian byte string stands for zero.
pub open spec fn is_zero_number(a: Seq<u8>) -> bool {
    strip_leading_zeros(a).len() == 0
}

proof fn lemma_strip_skip(s: Seq<u8>, k: int)
    requires
        0 <= k <= s.len(),
        forall|j: int| 0 <= j < k ==> s[j] == 0,
        k == s.len() || s[k] != 0,
    ensures
        strip_leading_zeros(s) == s.skip(k),
    decreases k,
{
    if k == 0 {
        assert(s.skip(0) =~= s);
    } else {
        lemma_strip_skip(s.drop_first(), k - 1);
        assert(s.drop_first().skip(k - 1) =~= s.skip(k));
    }
}

/// The digits of a big-endian number: the bytes after its leading zeros.
fn digits_start(a: &Vec<u8>) -> (k: usize)
    ensures
        k <= a@.len(),
        strip_leading_zeros(a@) == a@.skip(k as int),
{
    let mut k: usize = 0;
    while k < a.len() && a[k] == 0
        invariant
            k <= a.len(),
            forall|j: int| 0 <= j < k ==> a@[j] == 0,
        decreases a.len() - k,
    {
        k = k + 1;
    }
    proof {
        lemma_strip_skip(a@, k as int);
    }
    k
}

/// Whether two big-endian byte strings stand for the same number.
pub fn numbers_equal(a: &Vec<u8>, b: &Vec<u8>) -> (r: bool)
    ensures
        r == same_number(a@, b@),
{
    let ka = digits_start(a);
    let kb = digits_start(b);
    if a.len() - ka != b.len() - kb {
        assert(a@.skip(ka as int).len() != b@.skip(kb as int).len());
        return false;
    }
    let n = a.len() - ka;
    let mut i: usize = 0;
    while i < n
        invariant
            n == a.len() - ka,
            n == b.len() - kb,
            ka <= a.len(),
            kb <= b.len(),
            strip_leading_zeros(a@) == a@.skip(ka as int),
            strip_leading_zeros(b@) == b@.skip(kb as int),
            i <= n,
            forall|j: int| 0 <= j < i ==> a@.skip(ka as int)[j] == #[trigger] b@.skip(kb as int)[j],
        decreases n - i,
    {
        if a[ka + i] != b[kb + i] {
            assert(a@.skip(ka as int)[i as int] != b@.skip(kb as int)[i as int]);
            return false;
        }
        i = i + 1;
    }
    assert(a@.skip(ka as int) =~= b@.skip(kb as int));
    true
}

/// Whether a big-endian byte string stands for zero.
pub fn number_is_zero(a: &Vec<u8>) -> (r: bool)
    ensures
        r == is_zero_number(a@),
{
    let k = digits_start(a);
    k == a.len()
}

} // verus!
