use std::collections::HashMap;
use vstd::prelude::*;
use vstd::std_specs::hash::spec_keys_iter;
use vstd::std_specs::iter::IteratorSpec;

verus! {

/// One entry of the address book. The id is what the store keys it by.
#[derive(Debug, Clone)]
pub struct Contact {
    pub id: Option<usize>,
    pub first: String,
    pub last: String,
    pub email: String,
    pub phone: String,
}

impl Contact {
    /// A contact with the given id and fields.
    pub fn new(id: Option<usize>, first: &str, last: &str, email: &str, phone: &str) -> (r: Contact)
        ensures
            r.id == id,
            r.first@ == first@,
            r.last@ == last@,
            r.email@ == email@,
            r.phone@ == phone@,
    {
        Contact {
            id,
            first: first.to_owned(),
            last: last.to_owned(),
            email: email.to_owned(),
            phone: phone.to_owned(),
        }
    }

    /// Replaces every field but the id.
    pub fn update(&mut self, first: &str, last: &str, email: &str, phone: &str)
        ensures
            final(self).id == old(self).id,
            final(self).first@ == first@,
            final(self).last@ == last@,
            final(self).email@ == email@,
            final(self).phone@ == phone@,
    {
        self.first = first.to_owned();
        self.last = last.to_owned();
        self.email = email.to_owned();
        self.phone = phone.to_owned();
    }

    /// A field-by-field copy.
    fn duplicate(&self) -> (r: Contact)
        ensures
            r == *self,
    {
        Contact {
            id: self.id,
            first: self.first.clone(),
            last: self.last.clone(),
            email: self.email.clone(),
            phone: self.phone.clone(),
        }
    }
}

/// Whether `c` may join the contacts `m`: no stored contact has its email or its id.
pub open spec fn admits(m: Map<usize, Contact>, c: Contact) -> bool {
    forall|k: usize| #[trigger] m.contains_key(k) ==> m[k].email@ != c.email@ && m[k].id != c.id
}

/// Whether `q` occurs in `s` as a run of consecutive characters.
pub open spec fn contains_seq(s: Seq<char>, q: Seq<char>) -> bool {
    exists|i: int| 0 <= i && i + q.len() <= s.len() && #[trigger] s.subrange(i, i + q.len()) == q
}

/// Whether the search text `q` occurs in a name, the email or the phone of `c`.
pub open spec fn matches(c: Contact, q: Seq<char>) -> bool {
    contains_seq(c.first@, q) || contains_seq(c.last@, q) || contains_seq(c.email@, q)
        || contains_seq(c.phone@, q)
}

/// The contacts of `m` that match the search text `q`.
pub open spec fn matching(m: Map<usize, Contact>, q: Seq<char>) -> Map<usize, Contact> {
    Map::new(|k: usize| m.contains_key(k) && matches(m[k], q), |k: usize| m[k])
}

/// `v` lists the contacts of `m`, each exactly once, in some order.
pub open spec fn lists(m: Map<usize, Contact>, v: Seq<Contact>) -> bool {
    &&& forall|i: int|
        0 <= i < v.len() ==> #[trigger] v[i].id is Some && m.contains_key(v[i].id->0) && m[v[i].id->0]
            == v[i]
    &&& forall|i: int, j: int| 0 <= i < v.len() && 0 <= j < v.len() && i != j ==> v[i].id != v[j].id
    &&& forall|k: usize| #[trigger] m.contains_key(k) ==> exists|i: int| 0 <= i < v.len() && v[i] == m[k]
}

/// The characters of `s`, one per element.
fn chars_of(s: &str) -> (r: Vec<char>)
    ensures
        r@ == s@,
{
    broadcast use vstd::string::group_string_axioms;

    let mut r: Vec<char> = Vec::new();
    for c in it: s.chars()
        invariant
            it.seq() == s@,
            r@ == s@.take(it.index()),
    {
        r.push(c);
        assert(r@ =~= s@.take(it.index() + 1));
    }
    assert(r@ =~= s@);
    r
}

/// Whether `q` occurs in `s` as a run of consecutive characters.
fn contains_chars(s: &Vec<char>, q: &Vec<char>) -> (r: bool)
    ensures
        r == contains_seq(s@, q@),
{
    let n = s.len();
    let m = q.len();
    if m > n {
        return false;
    }
    let mut i: usize = 0;
    while i <= n - m
        invariant
            m <= n,
            n == s@.len(),
            m == q@.len(),
            forall|t: int| 0 <= t < i ==> #[trigger] s@.subrange(t, t + m) != q@,
        decreases n - i,
    {
        let mut j: usize = 0;
        while j < m && s[i + j] == q[j]
            invariant
                j <= m,
                i + m <= n,
                n == s@.len(),
                m == q@.len(),
                forall|t: int| 0 <= t < j ==> s@[i + t] == q@[t],
            decreases m - j,
        {
            j = j + 1;
        }
        if j == m {
            assert(s@.subrange(i as int, i + m) =~= q@);
            return true;
        }
        assert(s@.subrange(i as int, i + m)[j as int] != q@[j as int]);
        i = i + 1;
    }
    false
}

/// Whether `q` occurs in a name, the email or the phone of `c`.
fn contact_matches(c: &Contact, q: &Vec<char>) -> (r: bool)
    ensures
        r == matches(*c, q@),
{
    contains_chars(&chars_of(c.first.as_str()), q) || contains_chars(&chars_of(c.last.as_str()), q)
        || contains_chars(&chars_of(c.email.as_str()), q) || contains_chars(
        &chars_of(c.phone.as_str()),
        q,
    )
}

/// Every contact sits under its own id, and no two contacts share an email.
pub open spec fn well_keyed(m: Map<usize, Contact>) -> bool {
    &&& forall|k: usize| #[trigger] m.contains_key(k) ==> m[k].id == Some(k)
    &&& forall|j: usize, k: usize|
        #![trigger m.contains_key(j), m.contains_key(k)]
        m.contains_key(j) && m.contains_key(k) && j != k ==> m[j].email@ != m[k].email@
}

/// The contacts that a store holds after each record of `q` is offered to
/// `insert`, in order, starting from an empty store.
pub open spec fn load_seq(q: Seq<Contact>) -> Map<usize, Contact>
    decreases q.len(),
{
    if q.len() == 0 {
        Map::empty()
    } else {
        let m = load_seq(q.drop_last());
        let c = q.last();
        if c.id is Some && admits(m, c) {
            m.insert(c.id->0, c)
        } else {
            m
        }
    }
}

/// The contacts of `m` whose ids occur among the first `n` records of `saved`.
pub open spec fn listed_prefix(m: Map<usize, Contact>, saved: Seq<Contact>, n: int) -> Map<
    usize,
    Contact,
> {
    Map::new(
        |k: usize| exists|j: int| 0 <= j < n && #[trigger] saved[j].id == Some(k),
        |k: usize| m[k],
    )
}

proof fn lemma_load_listed_prefix(m: Map<usize, Contact>, saved: Seq<Contact>, n: int)
    requires
        well_keyed(m),
        lists(m, saved),
        0 <= n <= saved.len(),
    ensures
        load_seq(saved.take(n)) == listed_prefix(m, saved, n),
    decreases n,
{
    if n == 0 {
        assert(saved.take(0) =~= Seq::<Contact>::empty());
        assert(listed_prefix(m, saved, 0) =~= Map::<usize, Contact>::empty());
    } else {
        lemma_load_listed_prefix(m, saved, n - 1);
        let p = saved.take(n);
        assert(p.drop_last() =~= saved.take(n - 1));
        let prev = listed_prefix(m, saved, n - 1);
        let c = saved[n - 1];
        let kc = c.id->0;
        assert(m.contains_key(kc) && m[kc] == c);
        assert forall|k: usize| #[trigger] prev.contains_key(k) implies prev[k].email@ != c.email@
            && prev[k].id != c.id by {
            let j = choose|j: int| 0 <= j < n - 1 && #[trigger] saved[j].id == Some(k);
            assert(m.contains_key(saved[j].id->0));
            assert(saved[j].id != saved[n - 1].id);
        }
        assert(admits(prev, c));
        assert(prev.insert(kc, c) =~= listed_prefix(m, saved, n));
    }
}

/// Loading what `Contacts::all` lists (the saved form of a store) gives back
/// exactly the contacts of that store.
pub proof fn lemma_save_load_round_trip(s: Contacts, saved: Seq<Contact>)
    requires
        s.wf(),
        lists(s@, saved),
    ensures
        load_seq(saved) == s@,
{
    lemma_load_listed_prefix(s@, saved, saved.len() as int);
    assert(saved.take(saved.len() as int) =~= saved);
    let l = listed_prefix(s@, saved, saved.len() as int);
    assert forall|k: usize| l.contains_key(k) <==> s@.contains_key(k) by {
        if s@.contains_key(k) {
            let i = choose|i: int| 0 <= i < saved.len() && saved[i] == s@[k];
            assert(saved[i].id == Some(k));
        }
        if l.contains_key(k) {
            let j = choose|j: int| 0 <= j < saved.len() && #[trigger] saved[j].id == Some(k);
            assert(s@.contains_key(saved[j].id->0));
        }
    }
    assert(l =~= s@);
}

/// The contacts store, keyed by contact id.
#[derive(Debug)]
pub struct Contacts(HashMap<usize, Contact>);

impl View for Contacts {
    type V = Map<usize, Contact>;

    closed spec fn view(&self) -> Map<usize, Contact> {
        self.0@
    }
}

impl Contacts {
    /// The store's invariant, kept by every method that changes it.
    pub open spec fn wf(&self) -> bool {
        well_keyed(self@)
    }

    /// An empty store.
    pub fn new() -> (r: Contacts)
        ensures
            r.wf(),
            r@ == Map::<usize, Contact>::empty(),
    {
        Contacts(HashMap::new())
    }

    /// True when no stored contact has the email or the id of `contact`.
    pub fn validate(&self, contact: &Contact) -> (r: bool)
        requires
            self.wf(),
        ensures
            r == admits(self@, *contact),
    {
        broadcast use vstd::std_specs::hash::group_hash_axioms;

        let ghost ks = spec_keys_iter(&self.0).remaining().unref();
        let ghost mut n: int = 0;
        assert(ks.to_set() == self@.dom());
        for k in it: self.0.keys()
            invariant
                it.seq().unref() == ks,
                ks.to_set() == self@.dom(),
                n == it.index(),
                forall|i: int|
                    0 <= i < n ==> {
                        let c = #[trigger] self@[ks[i]];
                        c.email@ != contact.email@ && c.id != contact.id
                    },
        {
            assert(ks[n] == *k);
            let c = self.0.get(k).unwrap();
            if c.email == contact.email || c.id == contact.id {
                return false;
            }
            proof {
                n = n + 1;
            }
        }
        assert(n == ks.len());
        assert forall|k: usize| #[trigger] self@.contains_key(k) implies self@[k].email@
            != contact.email@ && self@[k].id != contact.id by {
            assert(ks.to_set().contains(k));
            let i = choose|i: int| 0 <= i < ks.len() && ks[i] == k;
            assert(self@[ks[i]] == self@[k]);
        }
        true
    }

    /// Adds `contact` under its id when it has one and `validate` accepts it;
    /// otherwise the store is left as it was.
    pub fn insert(&mut self, contact: Contact) -> (r: bool)
        requires
            old(self).wf(),
        ensures
            final(self).wf(),
            r == (contact.id is Some && admits(old(self)@, contact)),
            (exists|k: usize| #[trigger] old(self)@.contains_key(k) && old(self)@[k].email@ == contact.email@)
                ==> !r && final(self)@ == old(self)@,
            (contact.id matches Some(id) && old(self)@.contains_key(id)) ==> !r && final(self)@ == old(
                self,
            )@,
            r ==> final(self)@ == old(self)@.insert(contact.id->0, contact),
            !r ==> final(self)@ == old(self)@,
    {
        broadcast use vstd::std_specs::hash::group_hash_axioms;

        let id = match contact.id {
            Some(id) => id,
            None => return false,
        };
        if self.validate(&contact) {
            self.0.insert(id, contact);
            true
        } else {
            false
        }
    }

    /// Removes the contact with the given id; false when there was none.
    pub fn delete(&mut self, id: usize) -> (r: bool)
        requires
            old(self).wf(),
        ensures
            final(self).wf(),
            r == old(self)@.contains_key(id),
            final(self)@ == old(self)@.remove(id),
            !old(self)@.contains_key(id) ==> final(self)@ == old(self)@,
    {
        broadcast use vstd::std_specs::hash::group_hash_axioms;

        self.0.remove(&id).is_some()
    }

    /// The number of contacts.
    pub fn len(&self) -> (r: usize)
        ensures
            r == self@.len(),
    {
        broadcast use vstd::std_specs::hash::group_hash_axioms;

        self.0.len()
    }

    /// Copies of all contacts, in no particular order.
    pub fn all(&self) -> (r: Vec<Contact>)
        requires
            self.wf(),
        ensures
            lists(self@, r@),
    {
        broadcast use vstd::std_specs::hash::group_hash_axioms;

        let ghost ks = spec_keys_iter(&self.0).remaining().unref();
        let ghost mut n: int = 0;
        assert(ks.to_set() == self@.dom());
        let mut r: Vec<Contact> = Vec::new();
        for k in it: self.0.keys()
            invariant
                self.wf(),
                it.seq().unref() == ks,
                ks.to_set() == self@.dom(),
                ks.no_duplicates(),
                n == it.index(),
                r@.len() == n,
                forall|i: int| 0 <= i < n ==> #[trigger] r@[i] == self@[ks[i]],
        {
            assert(ks[n] == *k);
            assert(self@.contains_key(*k));
            let c = self.0.get(k).unwrap();
            r.push(c.duplicate());
            proof {
                n = n + 1;
            }
        }
        assert(n == ks.len());
        assert forall|i: int| 0 <= i < r@.len() implies #[trigger] r@[i].id is Some
            && self@.contains_key(r@[i].id->0) && self@[r@[i].id->0] == r@[i] by {
            assert(ks.to_set().contains(ks[i]));
        }
        assert forall|i: int, j: int|
            0 <= i < r@.len() && 0 <= j < r@.len() && i != j implies r@[i].id != r@[j].id by {
            assert(ks.to_set().contains(ks[i]));
            assert(ks.to_set().contains(ks[j]));
        }
        assert forall|k: usize| #[trigger] self@.contains_key(k) implies exists|i: int|
            0 <= i < r@.len() && r@[i] == self@[k] by {
            assert(ks.to_set().contains(k));
            let i = choose|i: int| 0 <= i < ks.len() && ks[i] == k;
            assert(r@[i] == self@[k]);
        }
        r
    }

    /// Copies of the contacts whose first name, last name, email or phone
    /// contains `search`, in no particular order.
    pub fn search(&self, search: &str) -> (r: Vec<Contact>)
        requires
            self.wf(),
        ensures
            lists(matching(self@, search@), r@),
    {
        broadcast use vstd::std_specs::hash::group_hash_axioms;

        let q = chars_of(search);
        let ghost ks = spec_keys_iter(&self.0).remaining().unref();
        let ghost mut n: int = 0;
        // the positions in `ks` of the contacts taken so far
        let ghost mut idx: Seq<int> = Seq::empty();
        let ghost sel = matching(self@, search@);
        assert(ks.to_set() == self@.dom());
        let mut r: Vec<Contact> = Vec::new();
        for k in it: self.0.keys()
            invariant
                self.wf(),
                q@ == search@,
                sel == matching(self@, search@),
                it.seq().unref() == ks,
                ks.to_set() == self@.dom(),
                ks.no_duplicates(),
                n == it.index(),
                0 <= n <= ks.len(),
                r@.len() == idx.len(),
                forall|i: int|
                    0 <= i < r@.len() ==> 0 <= #[trigger] idx[i] < n && r@[i] == self@[ks[idx[i]]]
                        && matches(self@[ks[idx[i]]], q@),
                forall|i: int, j: int| 0 <= i < j < idx.len() ==> idx[i] < idx[j],
                forall|t: int|
                    0 <= t < n && #[trigger] matches(self@[ks[t]], q@) ==> exists|i: int|
                        0 <= i < idx.len() && idx[i] == t,
        {
            assert(ks[n] == *k);
            assert(ks.to_set().contains(ks[n]));
            let c = self.0.get(k).unwrap();
            let ghost old_idx = idx;
            if contact_matches(c, &q) {
                r.push(c.duplicate());
                proof {
                    idx = idx.push(n);
                }
            }
            proof {
                assert forall|t: int|
                    0 <= t < n + 1 && #[trigger] matches(self@[ks[t]], q@) implies exists|i: int|
                    0 <= i < idx.len() && idx[i] == t by {
                    if t < n {
                        let i = choose|i: int| 0 <= i < old_idx.len() && old_idx[i] == t;
                        assert(idx[i] == t);
                    } else {
                        assert(idx[idx.len() - 1] == t);
                    }
                }
                n = n + 1;
            }
        }
        assert(n == ks.len());
        assert forall|i: int| 0 <= i < r@.len() implies #[trigger] r@[i].id is Some
            && sel.contains_key(r@[i].id->0) && sel[r@[i].id->0] == r@[i] by {
            assert(ks.to_set().contains(ks[idx[i]]));
        }
        assert forall|i: int, j: int|
            0 <= i < r@.len() && 0 <= j < r@.len() && i != j implies r@[i].id != r@[j].id by {
            assert(ks.to_set().contains(ks[idx[i]]));
            assert(ks.to_set().contains(ks[idx[j]]));
            assert(idx[i] != idx[j]);
        }
        assert forall|k: usize| #[trigger] sel.contains_key(k) implies exists|i: int|
            0 <= i < r@.len() && r@[i] == sel[k] by {
            assert(ks.to_set().contains(k));
            let t = choose|t: int| 0 <= t < ks.len() && ks[t] == k;
            assert(matches(self@[ks[t]], q@));
            let i = choose|i: int| 0 <= i < idx.len() && idx[i] == t;
            assert(r@[i] == sel[k]);
        }
        r
    }

    /// A store filled by offering each of `records`, in order, to `insert`:
    /// a record without an id, or whose id or email is already taken, is skipped.
    pub fn from_records(records: &Vec<Contact>) -> (r: Contacts)
        ensures
            r.wf(),
            r@ == load_seq(records@),
    {
        let mut r = Contacts::new();
        for i in 0..records.len()
            invariant
                r.wf(),
                r@ == load_seq(records@.take(i as int)),
        {
            assert(records@.take(i + 1).drop_last() =~= records@.take(i as int));
            r.insert(records[i].duplicate());
        }
        assert(records@.take(records@.len() as int) =~= records@);
        r
    }

    /// A copy of the contact with the given id.
    pub fn get(&self, id: usize) -> (r: Option<Contact>)
        ensures
            r == (if self@.contains_key(id) {
                Some(self@[id])
            } else {
                None::<Contact>
            }),
    {
        broadcast use vstd::std_specs::hash::group_hash_axioms;

        match self.0.get(&id) {
            Some(c) => Some(c.duplicate()),
            None => None,
        }
    }
}

impl Default for Contacts {
    fn default() -> (r: Contacts)
        ensures
            r.wf(),
            r@ == Map::<usize, Contact>::empty(),
    {
        Contacts::new()
    }
}

} // verus!
