//! Byte strings: identifiers, account addresses and symbols are all held
//! as byte strings, compared and ordered lexicographically.

use vstd::prelude::*;

verus! {

/// The three outcomes of comparing two keys.
#[derive(PartialEq, Eq, Structural, Clone, Copy, Debug)]
pub enum KeyOrder {
    Less,
    Equal,
    Greater,
}

/// `a` and `b` agree on their first `n` bytes.
pub open spec fn common_prefix(a: Seq<u8>, b: Seq<u8>, n: int) -> bool {
    &&& 0 <= n <= a.len()
    &&& n <= b.len()
    &&& forall|k: int| 0 <= k < n ==> a[k] == b[k]
}

/// Lexicographic order on byte strings; a proper prefix comes first.
pub open spec fn bytes_lt(a: Seq<u8>, b: Seq<u8>) -> bool {
    exists|n: int|
        #[trigger] common_prefix(a, b, n) && ((n == a.len() && n < b.len()) || (n < a.len()
            && n < b.len() && a[n] < b[n]))
}

/// No byte string comes before itself.
pub proof fn lemma_bytes_lt_irreflexive(a: Seq<u8>)
    ensures
        !bytes_lt(a, a),
{
}

/// The lexicographic order is transitive.
pub proof fn lemma_bytes_lt_transitive(a: Seq<u8>, b: Seq<u8>, c: Seq<u8>)
    requires
        bytes_lt(a, b),
        bytes_lt(b, c),
    ensures
        bytes_lt(a, c),
{
    let n1 = choose|n: int|
        #[trigger] common_prefix(a, b, n) && ((n == a.len() && n < b.len()) || (n < a.len()
            && n < b.len() && a[n] < b[n]));
    let n2 = choose|n: int|
        #[trigger] common_prefix(b, c, n) && ((n == b.len() && n < c.len()) || (n < b.len()
            && n < c.len() && b[n] < c[n]));
    if n1 <= n2 {
        assert(common_prefix(a, c, n1));
    } else {
        assert(common_prefix(a, c, n2));
    }
}

/// Two different strings that agree on their first `n` bytes are ordered one
/// way or the other.
proof fn lemma_first_difference(a: Seq<u8>, b: Seq<u8>, n: int)
    requires
        common_prefix(a, b, n),
        a != b,
    ensures
        bytes_lt(a, b) || bytes_lt(b, a),
    decreases a.len() - n,
{
    if n == a.len() || n == b.len() {
        if n == a.len() && n == b.len() {
            assert(a =~= b);
        }
        assert(common_prefix(b, a, n));
    } else if a[n] != b[n] {
        assert(common_prefix(b, a, n));
    } else {
        assert(common_prefix(a, b, n + 1));
        lemma_first_difference(a, b, n + 1);
    }
}

/// Of two different byte strings, one comes first.
pub proof fn lemma_bytes_lt_total(a: Seq<u8>, b: Seq<u8>)
    requires
        a != b,
    ensures
        bytes_lt(a, b) || bytes_lt(b, a),
{
    assert(common_prefix(a, b, 0));
    lemma_first_difference(a, b, 0);
}

/// Compares two byte strings lexicographically.
pub fn compare_bytes(a: &Vec<u8>, b: &Vec<u8>) -> (r: KeyOrder)
    ensures
        r == KeyOrder::Less <==> bytes_lt(a@, b@),
        r == KeyOrder::Equal <==> a@ == b@,
        r == KeyOrder::Greater <==> bytes_lt(b@, a@),
{
    let mut i: usize = 0;
    while i < a.len() && i < b.len() && a[i] == b[i]
        invariant
            common_prefix(a@, b@, i as int),
        decreases a.len() - i,
    {
        i = i + 1;
    }
    proof {
        lemma_bytes_lt_irreflexive(a@);
        if bytes_lt(a@, b@) && bytes_lt(b@, a@) {
            lemma_bytes_lt_transitive(a@, b@, a@);
        }
    }
    if i < a.len() && i < b.len() {
        if a[i] < b[i] {
            assert(common_prefix(a@, b@, i as int));
            assert(a@[i as int] != b@[i as int]);
            KeyOrder::Less
        } else {
            assert(common_prefix(b@, a@, i as int));
            assert(a@[i as int] != b@[i as int]);
            KeyOrder::Greater
        }
    } else if i == a.len() && i == b.len() {
        assert(a@ =~= b@);
        KeyOrder::Equal
    } else if i == a.len() {
        assert(a@ != b@);
        KeyOrder::Less
    } else {
        assert(common_prefix(b@, a@, i as int));
        assert(a@ != b@);
        KeyOrder::Greater
    }
}

/// Whether two byte strings are equal.
pub fn bytes_eq(a: &Vec<u8>, b: &Vec<u8>) -> (r: bool)
    ensures
        r == (a@ == b@),
{
    if a.len() != b.len() {
        return false;
    }
    let mut i: usize = 0;
    while i < a.len()
        invariant
            a.len() == b.len(),
            i <= a.len(),
            forall|k: int| 0 <= k < i ==> a@[k] == b@[k],
        decreases a.len() - i,
    {
        if a[i] != b[i] {
            return false;
        }
        i = i + 1;
    }
    assert(a@ =~= b@);
    true
}

/// A fresh copy of a byte string.
pub fn copy_bytes(a: &Vec<u8>) -> (r: Vec<u8>)
    ensures
        r@ == a@,
{
    let mut r: Vec<u8> = Vec::new();
    let mut i: usize = 0;
    while i < a.len()
        invariant
            i <= a.len(),
            r@ =~= a@.subrange(0, i as int),
        decreases a.len() - i,
    {
        r.push(a[i]);
        i = i + 1;
    }
    assert(a@.subrange(0, a.len() as int) =~= a@);
    r
}

/// The views of a list of byte strings.
pub open spec fn byte_list_view(l: Seq<Vec<u8>>) -> Seq<Seq<u8>> {
    l.map_values(|x: Vec<u8>| x@)
}

/// A fresh copy of a list of byte strings.
pub fn copy_byte_list(l: &Vec<Vec<u8>>) -> (r: Vec<Vec<u8>>)
    ensures
        byte_list_view(r@) == byte_list_view(l@),
{
    let mut r: Vec<Vec<u8>> = Vec::new();
    let mut i: usize = 0;
    while i < l.len()
        invariant
            i <= l.len(),
            byte_list_view(r@) =~= byte_list_view(l@).subrange(0, i as int),
        decreases l.len() - i,
    {
        let x = copy_bytes(&l[i]);
        let ghost before = r@;
        r.push(x);
        assert(byte_list_view(r@) =~= byte_list_view(before).push(x@));
        i = i + 1;
    }
    assert(byte_list_view(l@).subrange(0, l.len() as int) =~= byte_list_view(l@));
    r
}

/// A list of byte strings, viewed as the list of their contents.
pub struct ByteStrings {
    pub items: Vec<Vec<u8>>,
}

impl View for ByteStrings {
    type V = Seq<Seq<u8>>;

    open spec fn view(&self) -> Seq<Seq<u8>> {
        byte_list_view(self.items@)
    }
}

/// Whether a list of byte strings holds `x`.
pub fn list_contains(l: &Vec<Vec<u8>>, x: &Vec<u8>) -> (r: bool)
    ensures
        r == byte_list_view(l@).contains(x@),
{
    let mut i: usize = 0;
    while i < l.len()
        invariant
            i <= l.len(),
            forall|k: int| 0 <= k < i ==> l@[k]@ != x@,
        decreases l.len() - i,
    {
        if bytes_eq(&l[i], x) {
            assert(byte_list_view(l@)[i as int] == x@);
            return true;
        }
        i = i + 1;
    }
    proof {
        if byte_list_view(l@).contains(x@) {
            let k = choose|k: int| 0 <= k < byte_list_view(l@).len() && byte_list_view(l@)[k] == x@;
            assert(l@[k]@ == x@);
        }
    }
    false
}

} // verus!
