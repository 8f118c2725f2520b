use vstd::prelude::*;

verus! {

/// An account or contract address, held as its canonical byte encoding
/// (the XDR form of the address value). Two addresses are the same exactly
/// when their encodings are equal, and addresses are ordered by comparing
/// their encodings byte by byte.
#[derive(Clone, Debug, PartialEq, Eq)]
pub struct Account {
    pub bytes: Vec<u8>,
}

impl View for Account {
    type V = Seq<u8>;

    open spec fn view(&self) -> Seq<u8> {
        self.bytes@
    }
}

/// Lexicographic order on byte strings: the first differing byte decides,
/// and a proper prefix comes before the longer string.
pub open spec fn lex_lt(a: Seq<u8>, b: Seq<u8>) -> bool
    decreases a.len(),
{
    if a.len() == 0 {
        b.len() > 0
    } else if b.len() == 0 {
        false
    } else if a[0] != b[0] {
        a[0] < b[0]
    } else {
        lex_lt(a.drop_first(), b.drop_first())
    }
}

/// Address order is a strict total order: no address precedes itself, two
/// addresses never precede each other, and of two different addresses one
/// precedes the other. So the pool's canonical token order is well defined.
pub proof fn lemma_address_order_is_total(a: Seq<u8>, b: Seq<u8>)
    ensures
        !lex_lt(a, a),
        lex_lt(a, b) ==> !lex_lt(b, a),
        a != b ==> lex_lt(a, b) || lex_lt(b, a),
    decreases a.len(),
{
    if a.len() > 0 {
        lemma_address_order_is_total(a.drop_first(), a.drop_first());
        if b.len() > 0 && a[0] == b[0] {
            lemma_address_order_is_total(a.drop_first(), b.drop_first());
            if a != b {
                assert(a.drop_first() != b.drop_first()) by {
                    if a.drop_first() == b.drop_first() {
                        assert(a =~= seq![a[0]] + a.drop_first());
                        assert(b =~= seq![b[0]] + b.drop_first());
                    }
                }
            }
        }
    } else if b.len() == 0 {
        assert(a =~= b);
    }
}

proof fn lemma_lex_lt_skip(a: Seq<u8>, b: Seq<u8>, i: int)
    requires
        0 <= i < a.len(),
        i < b.len(),
        a[i] == b[i],
    ensures
        lex_lt(a.skip(i), b.skip(i)) == lex_lt(a.skip(i + 1), b.skip(i + 1)),
{
    assert(a.skip(i).drop_first() =~= a.skip(i + 1));
    assert(b.skip(i).drop_first() =~= b.skip(i + 1));
}

impl Account {
    /// Wraps an address encoding.
    pub fn new(bytes: Vec<u8>) -> (r: Account)
        ensures
            r@ == bytes@,
    {
        Account { bytes }
    }

    /// A copy of this address.
    pub fn duplicate(&self) -> (r: Account)
        ensures
            r@ == self@,
    {
        let bytes = self.bytes.clone();
        assert(bytes@ =~= self.bytes@);
        Account { bytes }
    }

    /// Whether two addresses are the same.
    pub fn same_as(&self, other: &Account) -> (r: bool)
        ensures
            r == (self@ == other@),
    {
        let n = self.bytes.len();
        if n != other.bytes.len() {
            return false;
        }
        let mut i: usize = 0;
        while i < n
            invariant
                n == self.bytes.len(),
                n == other.bytes.len(),
                i <= n,
                forall|j: int| 0 <= j < i ==> self.bytes@[j] == other.bytes@[j],
            decreases n - i,
        {
            if self.bytes[i] != other.bytes[i] {
                return false;
            }
            i = i + 1;
        }
        assert(self.bytes@ =~= other.bytes@);
        true
    }

    /// Whether this address orders strictly before `other`.
    pub fn precedes(&self, other: &Account) -> (r: bool)
        ensures
            r == lex_lt(self@, other@),
    {
        let a = &self.bytes;
        let b = &other.bytes;
        let mut i: usize = 0;
        assert(a@.skip(0) =~= a@);
        assert(b@.skip(0) =~= b@);
        while i < a.len() && i < b.len()
            invariant
                a@ == self@,
                b@ == other@,
                i <= a.len(),
                i <= b.len(),
                lex_lt(a@, b@) == lex_lt(a@.skip(i as int), b@.skip(i as int)),
            decreases a.len() - i,
        {
            let x = a[i];
            let y = b[i];
            if x != y {
                proof {
                    let sa = a@.skip(i as int);
                    let sb = b@.skip(i as int);
                    assert(sa.len() > 0 && sb.len() > 0);
                    assert(sa[0] == a@[i as int]);
                    assert(sb[0] == b@[i as int]);
                    assert(lex_lt(sa, sb) == (sa[0] < sb[0]));
                }
                return x < y;
            }
            proof {
                lemma_lex_lt_skip(a@, b@, i as int);
            }
            i = i + 1;
        }
        proof {
            assert(a@.skip(i as int).len() == a@.len() - i);
            assert(b@.skip(i as int).len() == b@.len() - i);
        }
        i < b.len()
    }
}

} // verus!
