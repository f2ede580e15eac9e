use vstd::prelude::*;

verus! {

/// A ledger account or contract, identified by its strkey text
/// (for instance `"GA…"` for an account or `"CA…"` for a contract).
pub struct Address {
    pub strkey: String,
}

impl View for Address {
    type V = Seq<char>;

    open spec fn view(&self) -> Seq<char> {
        self.strkey@
    }
}

impl Address {
    pub fn new(strkey: String) -> (a: Address)
        ensures
            a@ == strkey@,
    {
        Address { strkey }
    }

    /// Whether both values name the same ledger address.
    pub fn same_as(&self, other: &Address) -> (b: bool)
        ensures
            b == (self@ == other@),
    {
        self.strkey == other.strkey
    }

    /// A second value naming the same address.
    pub fn duplicate(&self) -> (a: Address)
        ensures
            a@ == self@,
    {
        Address { strkey: self.strkey.clone() }
    }
}

/// The address texts of a sequence of addresses, in order.
pub open spec fn addresses_view(v: Seq<Address>) -> Seq<Seq<char>> {
    v.map_values(|a: Address| a@)
}

/// Whether `a` occurs in `v`.
pub fn contains_address(v: &Vec<Address>, a: &Address) -> (b: bool)
    ensures
        b == addresses_view(v@).contains(a@),
{
    let mut i: usize = 0;
    while i < v.len()
        invariant
            i <= v.len(),
            forall|j: int| 0 <= j < i ==> v@[j]@ != a@,
        decreases v.len() - i,
    {
        if v[i].same_as(a) {
            assert(addresses_view(v@)[i as int] == a@);
            return true;
        }
        i = i + 1;
    }
    proof {
        if addresses_view(v@).contains(a@) {
            let k = choose|k: int| 0 <= k < addresses_view(v@).len() && addresses_view(v@)[k] == a@;
            assert(v@[k]@ == a@);
        }
    }
    false
}

/// The first position of `a` in `v`, if any.
pub fn index_of_address(v: &Vec<Address>, a: &Address) -> (r: Option<usize>)
    ensures
        match r {
            Some(i) => i < v.len() && v@[i as int]@ == a@ && forall|j: int|
                0 <= j < i ==> v@[j]@ != a@,
            None => !addresses_view(v@).contains(a@),
        },
{
    let mut i: usize = 0;
    while i < v.len()
        invariant
            i <= v.len(),
            forall|j: int| 0 <= j < i ==> v@[j]@ != a@,
        decreases v.len() - i,
    {
        if v[i].same_as(a) {
            return Some(i);
        }
        i = i + 1;
    }
    proof {
        if addresses_view(v@).contains(a@) {
            let k = choose|k: int| 0 <= k < addresses_view(v@).len() && addresses_view(v@)[k] == a@;
            assert(v@[k]@ == a@);
        }
    }
    None
}

/// A copy of a list of addresses.
pub fn copy_addresses(v: &Vec<Address>) -> (r: Vec<Address>)
    ensures
        addresses_view(r@) == addresses_view(v@),
{
    let mut r: Vec<Address> = Vec::new();
    let mut i: usize = 0;
    while i < v.len()
        invariant
            i <= v.len(),
            r.len() == i,
            forall|j: int| 0 <= j < i ==> r@[j]@ == v@[j]@,
        decreases v.len() - i,
    {
        r.push(v[i].duplicate());
        i = i + 1;
    }
    assert(addresses_view(r@) =~= addresses_view(v@));
    r
}

/// Whether no address occurs twice in `v`.
pub fn addresses_distinct(v: &Vec<Address>) -> (b: bool)
    ensures
        b == addresses_view(v@).no_duplicates(),
{
    let ghost s = addresses_view(v@);
    let mut i: usize = 0;
    while i < v.len()
        invariant
            i <= v.len(),
            s == addresses_view(v@),
            forall|a: int, b: int| 0 <= a < i && 0 <= b < v.len() && a != b ==> s[a] != s[b],
        decreases v.len() - i,
    {
        let mut j: usize = 0;
        while j < v.len()
            invariant
                i < v.len(),
                j <= v.len(),
                s == addresses_view(v@),
                forall|a: int, b: int| 0 <= a < i && 0 <= b < v.len() && a != b ==> s[a] != s[b],
                forall|b: int| 0 <= b < j && b != i ==> s[i as int] != s[b],
            decreases v.len() - j,
        {
            if j != i && v[i].same_as(&v[j]) {
                assert(s[i as int] == s[j as int]);
                return false;
            }
            j = j + 1;
        }
        i = i + 1;
    }
    true
}

} // verus!
