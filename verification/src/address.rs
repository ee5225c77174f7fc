use vstd::prelude::*;

verus! {

/// A Stellar account or contract address, identified by its strkey text
/// (`G...` for accounts, `C...` for contracts).
#[derive(Debug, PartialEq, Eq)]
pub struct Address {
    strkey: String,
}

impl View for Address {
    type V = Seq<char>;

    closed spec fn view(&self) -> Seq<char> {
        self.strkey@
    }
}

impl Clone for Address {
    fn clone(&self) -> (copy: Self)
        ensures
            copy@ == self@,
    {
        Address { strkey: self.strkey.clone() }
    }
}

/// The identities of a sequence of addresses.
pub open spec fn strkeys(addrs: Seq<Address>) -> Seq<Seq<char>> {
    Seq::new(addrs.len(), |i: int| addrs[i]@)
}

/// The predicate that keeps every identity but `who`.
pub open spec fn other_than(who: Seq<char>) -> spec_fn(Seq<char>) -> bool {
    |x: Seq<char>| x != who
}

impl Address {
    /// Builds an address from its strkey text.
    pub fn from_strkey(strkey: &str) -> (addr: Address)
        ensures
            addr@ == strkey@,
    {
        Address { strkey: strkey.to_owned() }
    }

    /// The strkey text of this address.
    pub fn strkey(&self) -> (s: &str)
        ensures
            s@ == self@,
    {
        self.strkey.as_str()
    }

    /// Whether two addresses denote the same account or contract.
    pub fn same_as(&self, other: &Address) -> (same: bool)
        ensures
            same == (self@ == other@),
    {
        self.strkey == other.strkey
    }
}

/// Whether `who` occurs in `addrs`.
pub fn contains_address(addrs: &Vec<Address>, who: &Address) -> (found: bool)
    ensures
        found == strkeys(addrs@).contains(who@),
{
    let mut i: usize = 0;
    while i < addrs.len()
        invariant
            i <= addrs.len(),
            forall|k: int| 0 <= k < i ==> addrs@[k]@ != who@,
        decreases addrs.len() - i,
    {
        if addrs[i].same_as(who) {
            assert(strkeys(addrs@)[i as int] == who@);
            return true;
        }
        i += 1;
    }
    proof {
        if strkeys(addrs@).contains(who@) {
            let k = choose|k: int| 0 <= k < strkeys(addrs@).len() && strkeys(addrs@)[k] == who@;
            assert(addrs@[k]@ == who@);
        }
    }
    false
}

/// A copy of a list of addresses.
pub fn copy_addresses(addrs: &Vec<Address>) -> (copy: Vec<Address>)
    ensures
        strkeys(copy@) == strkeys(addrs@),
{
    let mut copy: Vec<Address> = Vec::new();
    let mut i: usize = 0;
    while i < addrs.len()
        invariant
            i <= addrs.len(),
            strkeys(copy@) == strkeys(addrs@).take(i as int),
        decreases addrs.len() - i,
    {
        let ghost before = copy@;
        copy.push(addrs[i].clone());
        assert(strkeys(copy@) =~= strkeys(before).push(addrs@[i as int]@));
        assert(strkeys(copy@) =~= strkeys(addrs@).take(i + 1));
        i += 1;
    }
    assert(strkeys(addrs@).take(i as int) =~= strkeys(addrs@));
    copy
}

/// The addresses of `addrs` other than `who`, in the order they had.
pub fn without_address(addrs: &Vec<Address>, who: &Address) -> (rest: Vec<Address>)
    ensures
        strkeys(rest@) == strkeys(addrs@).filter(other_than(who@)),
{
    let mut rest: Vec<Address> = Vec::new();
    let mut i: usize = 0;
    assert(strkeys(addrs@).take(0) =~= Seq::<Seq<char>>::empty());
    assert(Seq::<Seq<char>>::empty().filter(other_than(who@)) =~= Seq::<Seq<char>>::empty()) by {
        reveal(Seq::filter);
    }
    while i < addrs.len()
        invariant
            i <= addrs.len(),
            strkeys(rest@) == strkeys(addrs@).take(i as int).filter(other_than(who@)),
        decreases addrs.len() - i,
    {
        let ghost before = rest@;
        assert(strkeys(addrs@).take(i + 1) =~= strkeys(addrs@).take(i as int).push(
            addrs@[i as int]@,
        ));
        let ghost prefix = strkeys(addrs@).take(i as int);
        let ghost elem = addrs@[i as int]@;
        proof {
            prefix.lemma_filter_push(elem, other_than(who@));
        }
        assert(prefix.push(elem).filter(other_than(who@)) == if other_than(who@)(elem) {
            prefix.filter(other_than(who@)).push(elem)
        } else {
            prefix.filter(other_than(who@))
        });
        if !addrs[i].same_as(who) {
            rest.push(addrs[i].clone());
            assert(strkeys(rest@) =~= strkeys(before).push(addrs@[i as int]@));
        }
        i += 1;
    }
    assert(strkeys(addrs@).take(i as int) =~= strkeys(addrs@));
    rest
}

} // verus!
