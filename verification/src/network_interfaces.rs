//! The interface set: a mapping from interface name to descriptor, with a
//! diff operation.

use vstd::prelude::*;
use crate::addr::IpAddress;

verus! {

/// What the library records about one network interface, as plain values.
/// The embedding program fills this from whatever descriptor its interface
/// enumeration produces.
#[derive(PartialEq, Eq, Debug)]
pub struct Interface {
    /// The interface name; the unique key of an interface set.
    pub name: String,
    /// The interface index.
    pub index: u32,
    /// The interface flags word.
    pub flags: u32,
    /// The addresses assigned to the interface.
    pub addresses: Vec<IpAddress>,
    /// The link-layer address as a 48-bit value, when the interface has one.
    pub mac: Option<u64>,
    /// The maximum transmission unit, when known.
    pub mtu: Option<u32>,
}

/// The mathematical value of an [`Interface`].
pub ghost struct InterfaceV {
    pub name: Seq<char>,
    pub index: u32,
    pub flags: u32,
    pub addresses: Seq<IpAddress>,
    pub mac: Option<u64>,
    pub mtu: Option<u32>,
}

impl View for Interface {
    type V = InterfaceV;

    open spec fn view(&self) -> InterfaceV {
        InterfaceV {
            name: self.name@,
            index: self.index,
            flags: self.flags,
            addresses: self.addresses@,
            mac: self.mac,
            mtu: self.mtu,
        }
    }
}

/// The values of a sequence of interfaces.
pub open spec fn seq_views(s: Seq<Interface>) -> Seq<InterfaceV> {
    s.map_values(|x: Interface| x@)
}

/// Whether no two interfaces of the sequence share a name.
pub open spec fn unique_names(s: Seq<InterfaceV>) -> bool {
    forall|i: int, j: int|
        0 <= i < s.len() && 0 <= j < s.len() && i != j ==> (#[trigger] s[i]).name != (
        #[trigger] s[j]).name
}

/// Whether some interface of the sequence has the given name.
pub open spec fn contains_name(s: Seq<InterfaceV>, k: Seq<char>) -> bool {
    exists|i: int| 0 <= i < s.len() && (#[trigger] s[i]).name == k
}

/// The mapping from name to interface described by a sequence, where a later
/// entry overwrites an earlier one of the same name.
pub open spec fn as_map(s: Seq<InterfaceV>) -> Map<Seq<char>, InterfaceV>
    decreases s.len(),
{
    if s.len() == 0 {
        Map::empty()
    } else {
        as_map(s.drop_last()).insert(s.last().name, s.last())
    }
}

/// A name is in the mapping of a sequence exactly when some entry bears it.
pub proof fn lemma_as_map_dom(s: Seq<InterfaceV>)
    ensures
        forall|k: Seq<char>| #[trigger] as_map(s).contains_key(k) <==> contains_name(s, k),
    decreases s.len(),
{
    if s.len() > 0 {
        let t = s.drop_last();
        lemma_as_map_dom(t);
        assert forall|k: Seq<char>| #[trigger]
            as_map(s).contains_key(k) <==> contains_name(s, k) by {
            if as_map(s).contains_key(k) {
                if k == s.last().name {
                    assert(s[s.len() - 1].name == k);
                } else {
                    assert(as_map(t).contains_key(k));
                    assert(contains_name(t, k));
                    let i = choose|i: int| 0 <= i < t.len() && (#[trigger] t[i]).name == k;
                    assert(t[i] == s[i]);
                    assert(s[i].name == k);
                }
            }
            if contains_name(s, k) {
                let i = choose|i: int| 0 <= i < s.len() && (#[trigger] s[i]).name == k;
                if i < s.len() - 1 {
                    assert(t[i].name == k);
                    assert(contains_name(t, k));
                    assert(as_map(t).contains_key(k));
                    assert(as_map(s).contains_key(k));
                } else {
                    assert(k == s.last().name);
                    assert(as_map(s).contains_key(k));
                }
            }
        }
    }
}

/// With unique names, each entry is the mapping's value at its name.
pub proof fn lemma_as_map_index(s: Seq<InterfaceV>, i: int)
    requires
        unique_names(s),
        0 <= i < s.len(),
    ensures
        as_map(s).contains_key(s[i].name),
        as_map(s)[s[i].name] == s[i],
    decreases s.len(),
{
    let t = s.drop_last();
    if i < s.len() - 1 {
        assert(unique_names(t));
        lemma_as_map_index(t, i);
        assert(s[i].name != s[s.len() - 1].name);
    }
}

/// Appending an entry inserts it into the mapping.
pub proof fn lemma_as_map_push(s: Seq<InterfaceV>, v: InterfaceV)
    ensures
        as_map(s.push(v)) == as_map(s).insert(v.name, v),
{
    assert(s.push(v).drop_last() =~= s);
    assert(s.push(v).last() == v);
}

/// Appending an entry keeps the names already present, adds the new one, and
/// keeps the names unique when the new one was absent.
pub proof fn lemma_push_keeps(pre: Seq<InterfaceV>, x: InterfaceV)
    ensures
        forall|k: Seq<char>| contains_name(pre, k) ==> contains_name(pre.push(x), k),
        contains_name(pre.push(x), x.name),
        (!contains_name(pre, x.name) && unique_names(pre)) ==> unique_names(pre.push(x)),
{
    assert forall|k: Seq<char>| contains_name(pre, k) implies contains_name(pre.push(x), k) by {
        let i = choose|i: int| 0 <= i < pre.len() && (#[trigger] pre[i]).name == k;
        assert(pre.push(x)[i].name == k);
    }
    assert(pre.push(x)[pre.len() as int] == x);
    if !contains_name(pre, x.name) && unique_names(pre) {
        let s = pre.push(x);
        assert forall|i: int, j: int|
            0 <= i < s.len() && 0 <= j < s.len() && i != j implies (#[trigger] s[i]).name != (
        #[trigger] s[j]).name by {
            if i < pre.len() && j < pre.len() {
                assert(pre[i].name != pre[j].name);
            } else if j == pre.len() {
                assert(s[i] == pre[i]);
            } else {
                assert(s[j] == pre[j]);
            }
        }
    }
}

/// Overwriting the entry that bears a name updates the mapping at that name.
pub proof fn lemma_as_map_update(s: Seq<InterfaceV>, j: int, v: InterfaceV)
    requires
        unique_names(s),
        0 <= j < s.len(),
        s[j].name == v.name,
    ensures
        as_map(s.update(j, v)) == as_map(s).insert(v.name, v),
    decreases s.len(),
{
    let t = s.drop_last();
    if j == s.len() - 1 {
        assert(s.update(j, v).drop_last() =~= t);
        assert(s.update(j, v).last() == v);
        assert(as_map(t).insert(s.last().name, s.last()).insert(v.name, v) =~= as_map(t).insert(
            v.name,
            v,
        ));
    } else {
        assert(unique_names(t));
        lemma_as_map_update(t, j, v);
        assert(s.update(j, v).drop_last() =~= t.update(j, v));
        assert(s.update(j, v).last() == s.last());
        assert(s[j].name != s[s.len() - 1].name);
        assert(as_map(t).insert(v.name, v).insert(s.last().name, s.last()) =~= as_map(t).insert(
            s.last().name,
            s.last(),
        ).insert(v.name, v));
    }
}

/// A keyed set of interface descriptors; the interface name is the unique key.
#[derive(PartialEq, Eq, Debug)]
pub struct Interfaces(pub(crate) Vec<Interface>);

impl View for Interfaces {
    type V = Seq<InterfaceV>;

    open(crate) spec fn view(&self) -> Seq<InterfaceV> {
        seq_views(self.0@)
    }
}

/// The three disjoint outcomes of diffing two interface sets.
#[derive(PartialEq, Eq, Debug)]
pub struct InterfacesDiff {
    /// Keys present in both sets whose descriptors differ; the new descriptor.
    pub updated: Interfaces,
    /// Keys present only in the new set.
    pub added: Interfaces,
    /// Keys present only in the old set.
    pub removed: Interfaces,
}

/// The sub-mapping of `om` at keys absent from `sm`.
pub open spec fn added_map(
    sm: Map<Seq<char>, InterfaceV>,
    om: Map<Seq<char>, InterfaceV>,
) -> Map<Seq<char>, InterfaceV> {
    Map::new(|k: Seq<char>| om.contains_key(k) && !sm.contains_key(k), |k: Seq<char>| om[k])
}

/// The sub-mapping of `sm` at keys absent from `om`.
pub open spec fn removed_map(
    sm: Map<Seq<char>, InterfaceV>,
    om: Map<Seq<char>, InterfaceV>,
) -> Map<Seq<char>, InterfaceV> {
    Map::new(|k: Seq<char>| sm.contains_key(k) && !om.contains_key(k), |k: Seq<char>| sm[k])
}

/// The sub-mapping of `om` at keys of both whose values differ.
pub open spec fn updated_map(
    sm: Map<Seq<char>, InterfaceV>,
    om: Map<Seq<char>, InterfaceV>,
) -> Map<Seq<char>, InterfaceV> {
    Map::new(
        |k: Seq<char>| sm.contains_key(k) && om.contains_key(k) && om[k] != sm[k],
        |k: Seq<char>| om[k],
    )
}

/// A name borne by no entry is not a key of the mapping.
proof fn lemma_absent_key(s: Seq<InterfaceV>, k: Seq<char>)
    requires
        !contains_name(s, k),
    ensures
        !as_map(s).contains_key(k),
{
    lemma_as_map_dom(s);
    assert(as_map(s).contains_key(k) <==> contains_name(s, k));
}

/// A name borne by some entry is a key of the mapping.
proof fn lemma_present_key(s: Seq<InterfaceV>, k: Seq<char>)
    requires
        contains_name(s, k),
    ensures
        as_map(s).contains_key(k),
{
    lemma_as_map_dom(s);
    assert(as_map(s).contains_key(k) <==> contains_name(s, k));
}

/// With unique names, the name of the entry at `i` is no key of the mapping
/// of the first `i` entries.
proof fn lemma_take_misses_name(s: Seq<InterfaceV>, i: int)
    requires
        unique_names(s),
        0 <= i < s.len(),
    ensures
        !as_map(s.take(i)).contains_key(s[i].name),
{
    let t = s.take(i);
    assert(!contains_name(t, s[i].name)) by {
        assert forall|c: int| 0 <= c < t.len() implies (#[trigger] t[c]).name != s[i].name by {
            assert(t[c] == s[c]);
        }
    }
    lemma_absent_key(t, s[i].name);
}

/// Inserting a key that the second mapping lacks inserts it into the
/// difference of the two.
proof fn lemma_removed_insert_absent(
    m: Map<Seq<char>, InterfaceV>,
    om: Map<Seq<char>, InterfaceV>,
    k0: Seq<char>,
    v: InterfaceV,
)
    requires
        !om.contains_key(k0),
    ensures
        removed_map(m.insert(k0, v), om) == removed_map(m, om).insert(k0, v),
{
    assert(removed_map(m.insert(k0, v), om) =~= removed_map(m, om).insert(k0, v));
}

/// Inserting a key that the second mapping has leaves the difference as it
/// stood, except that a shadowed value disappears with its key intact.
proof fn lemma_removed_insert_present(
    m: Map<Seq<char>, InterfaceV>,
    om: Map<Seq<char>, InterfaceV>,
    k0: Seq<char>,
    v: InterfaceV,
)
    requires
        om.contains_key(k0),
    ensures
        removed_map(m.insert(k0, v), om) == removed_map(m, om),
{
    assert(removed_map(m.insert(k0, v), om) =~= removed_map(m, om));
}

/// A new key absent from the first mapping extends the added-part.
proof fn lemma_added_insert_absent(
    sm: Map<Seq<char>, InterfaceV>,
    om: Map<Seq<char>, InterfaceV>,
    k0: Seq<char>,
    v: InterfaceV,
)
    requires
        !sm.contains_key(k0),
    ensures
        added_map(sm, om.insert(k0, v)) == added_map(sm, om).insert(k0, v),
        updated_map(sm, om.insert(k0, v)) == updated_map(sm, om),
{
    assert(added_map(sm, om.insert(k0, v)) =~= added_map(sm, om).insert(k0, v));
    assert(updated_map(sm, om.insert(k0, v)) =~= updated_map(sm, om));
}

/// A new key present in the first mapping with a different value extends the
/// updated-part.
proof fn lemma_updated_insert_changed(
    sm: Map<Seq<char>, InterfaceV>,
    om: Map<Seq<char>, InterfaceV>,
    k0: Seq<char>,
    v: InterfaceV,
)
    requires
        sm.contains_key(k0),
        sm[k0] != v,
    ensures
        updated_map(sm, om.insert(k0, v)) == updated_map(sm, om).insert(k0, v),
        added_map(sm, om.insert(k0, v)) == added_map(sm, om),
{
    assert(updated_map(sm, om.insert(k0, v)) =~= updated_map(sm, om).insert(k0, v));
    assert(added_map(sm, om.insert(k0, v)) =~= added_map(sm, om));
}

/// A new key present in the first mapping with an equal value extends
/// neither part.
proof fn lemma_updated_insert_equal(
    sm: Map<Seq<char>, InterfaceV>,
    om: Map<Seq<char>, InterfaceV>,
    k0: Seq<char>,
    v: InterfaceV,
)
    requires
        sm.contains_key(k0),
        sm[k0] == v,
        !om.contains_key(k0),
    ensures
        updated_map(sm, om.insert(k0, v)) == updated_map(sm, om),
        added_map(sm, om.insert(k0, v)) == added_map(sm, om),
{
    assert(updated_map(sm, om.insert(k0, v)) =~= updated_map(sm, om));
    assert(added_map(sm, om.insert(k0, v)) =~= added_map(sm, om));
}

/// The difference map holds only keys of its first operand.
proof fn lemma_removed_dom(
    m: Map<Seq<char>, InterfaceV>,
    om: Map<Seq<char>, InterfaceV>,
    k0: Seq<char>,
)
    requires
        !m.contains_key(k0),
    ensures
        !removed_map(m, om).contains_key(k0),
{
}

/// The added and updated maps hold only keys of their second operand.
proof fn lemma_added_updated_dom(
    sm: Map<Seq<char>, InterfaceV>,
    om: Map<Seq<char>, InterfaceV>,
    k0: Seq<char>,
)
    requires
        !om.contains_key(k0),
    ensures
        !added_map(sm, om).contains_key(k0),
        !updated_map(sm, om).contains_key(k0),
{
}

/// Copies a vector of addresses.
fn clone_addresses(v: &Vec<IpAddress>) -> (r: Vec<IpAddress>)
    ensures
        r@ == v@,
{
    let mut r: Vec<IpAddress> = Vec::new();
    let mut i: usize = 0;
    while i < v.len()
        invariant
            i <= v.len(),
            r@ == v@.take(i as int),
        decreases v.len() - i,
    {
        r.push(v[i]);
        proof {
            assert(r@ =~= v@.take(i as int + 1));
        }
        i = i + 1;
    }
    proof {
        assert(v@.take(v@.len() as int) =~= v@);
    }
    r
}

impl Clone for Interface {
    /// The copy holds the same value.
    fn clone(&self) -> (r: Self)
        ensures
            r@ == self@,
    {
        Interface {
            name: self.name.clone(),
            index: self.index,
            flags: self.flags,
            addresses: clone_addresses(&self.addresses),
            mac: self.mac,
            mtu: self.mtu,
        }
    }
}

/// Whether two interfaces hold the same value.
pub(crate) fn iface_eq(a: &Interface, b: &Interface) -> (r: bool)
    ensures
        r == (a@ == b@),
{
    if !(a.name == b.name && a.index == b.index && a.flags == b.flags) {
        return false;
    }
    if !(a.mac == b.mac && a.mtu == b.mtu) {
        return false;
    }
    if a.addresses.len() != b.addresses.len() {
        return false;
    }
    let mut i: usize = 0;
    while i < a.addresses.len()
        invariant
            i <= a.addresses.len(),
            a.addresses@.len() == b.addresses@.len(),
            forall|j: int| 0 <= j < i ==> a.addresses@[j] == b.addresses@[j],
        decreases a.addresses.len() - i,
    {
        if !(a.addresses[i] == b.addresses[i]) {
            return false;
        }
        i = i + 1;
    }
    proof {
        assert(a.addresses@ =~= b.addresses@);
    }
    true
}

/// The index of the entry bearing a name, if any.
fn find_index(v: &Vec<Interface>, name: &String) -> (r: Option<usize>)
    ensures
        (match r {
            Some(j) => j < v@.len() && seq_views(v@)[j as int].name == name@,
            None => !contains_name(seq_views(v@), name@),
        }),
{
    let mut i: usize = 0;
    while i < v.len()
        invariant
            i <= v.len(),
            forall|j: int| 0 <= j < i ==> seq_views(v@)[j].name != name@,
        decreases v.len() - i,
    {
        if v[i].name == *name {
            return Some(i);
        }
        i = i + 1;
    }
    None
}

/// Whether every entry of the sequence is recorded in the mapping at its name.
pub open spec fn entries_in(a: Seq<InterfaceV>, m: Map<Seq<char>, InterfaceV>) -> bool {
    forall|i: int|
        0 <= i < a.len() ==> m.contains_key((#[trigger] a[i]).name) && m[a[i].name] == a[i]
}

/// With unique names on both sides, two sequences describe the same mapping
/// exactly when each one's entries are all recorded in the other's mapping.
pub proof fn lemma_maps_eq_iff(sv: Seq<InterfaceV>, ov: Seq<InterfaceV>)
    requires
        unique_names(sv),
        unique_names(ov),
    ensures
        (as_map(sv) == as_map(ov)) <==> (entries_in(sv, as_map(ov)) && entries_in(
            ov,
            as_map(sv),
        )),
{
    lemma_as_map_dom(sv);
    lemma_as_map_dom(ov);
    if entries_in(sv, as_map(ov)) && entries_in(ov, as_map(sv)) {
        assert forall|k: Seq<char>| #[trigger]
            as_map(sv).contains_key(k) == as_map(ov).contains_key(k) && (as_map(
                sv,
            ).contains_key(k) ==> as_map(sv)[k] == as_map(ov)[k]) by {
            if as_map(sv).contains_key(k) {
                assert(contains_name(sv, k));
                let i = choose|i: int| 0 <= i < sv.len() && (#[trigger] sv[i]).name == k;
                lemma_as_map_index(sv, i);
                assert(as_map(ov).contains_key(sv[i].name) && as_map(ov)[sv[i].name] == sv[i]);
            }
            if as_map(ov).contains_key(k) {
                assert(contains_name(ov, k));
                let i = choose|i: int| 0 <= i < ov.len() && (#[trigger] ov[i]).name == k;
                lemma_as_map_index(ov, i);
                assert(as_map(sv).contains_key(ov[i].name) && as_map(sv)[ov[i].name] == ov[i]);
            }
        }
        assert(as_map(sv) =~= as_map(ov));
    }
    if as_map(sv) == as_map(ov) {
        assert forall|i: int| 0 <= i < sv.len() implies as_map(ov).contains_key((
        #[trigger] sv[i]).name) && as_map(ov)[sv[i].name] == sv[i] by {
            lemma_as_map_index(sv, i);
        }
        assert forall|i: int| 0 <= i < ov.len() implies as_map(sv).contains_key((
        #[trigger] ov[i]).name) && as_map(sv)[ov[i].name] == ov[i] by {
            lemma_as_map_index(ov, i);
        }
    }
}

/// Whether every entry of `a` is recorded, with an equal value, in the
/// mapping that `b` describes.
fn all_present(a: &Vec<Interface>, b: &Vec<Interface>) -> (r: bool)
    requires
        unique_names(seq_views(b@)),
    ensures
        r == entries_in(seq_views(a@), as_map(seq_views(b@))),
{
    let ghost av = seq_views(a@);
    let ghost bv = seq_views(b@);
    let ghost m = as_map(bv);
    let mut i: usize = 0;
    while i < a.len()
        invariant
            i <= a@.len(),
            av == seq_views(a@),
            bv == seq_views(b@),
            m == as_map(bv),
            unique_names(bv),
            forall|p: int|
                0 <= p < i ==> m.contains_key((#[trigger] av[p]).name) && m[av[p].name] == av[p],
        decreases a.len() - i,
    {
        match find_index(b, &a[i].name) {
            None => {
                proof {
                    assert(av[i as int].name == a@[i as int].name@);
                    lemma_absent_key(bv, av[i as int].name);
                    assert((i as int) < av.len() && !m.contains_key(av[i as int].name));
                }
                return false;
            },
            Some(j) => {
                let same_value = iface_eq(&b[j], &a[i]);
                proof {
                    lemma_as_map_index(bv, j as int);
                    assert(m.contains_key(av[i as int].name) && m[av[i as int].name] == bv[j as int]);
                }
                if !same_value {
                    proof {
                        assert(m[av[i as int].name] != av[i as int]);
                    }
                    return false;
                }
            },
        }
        i = i + 1;
    }
    proof {
        assert forall|p: int| 0 <= p < av.len() implies m.contains_key((
        #[trigger] av[p]).name) && m[av[p].name] == av[p] by {
            assert(m.contains_key(av[p].name) && m[av[p].name] == av[p]);
        }
    }
    true
}

/// Whether no two entries of the vector share a name.
pub(crate) fn check_unique(v: &Vec<Interface>) -> (r: bool)
    ensures
        r == unique_names(seq_views(v@)),
{
    let ghost vs = seq_views(v@);
    let mut i: usize = 0;
    while i < v.len()
        invariant
            i <= v.len(),
            vs == seq_views(v@),
            forall|p: int, q: int|
                0 <= p < i && p < q < vs.len() ==> (#[trigger] vs[p]).name != (
                #[trigger] vs[q]).name,
        decreases v.len() - i,
    {
        let mut j: usize = i + 1;
        while j < v.len()
            invariant
                i < j || j == i + 1,
                i < v.len(),
                j >= i + 1,
                j <= v.len(),
                vs == seq_views(v@),
                forall|q: int| i < q < j ==> vs[i as int].name != (#[trigger] vs[q]).name,
            decreases v.len() - j,
        {
            if v[i].name == v[j].name {
                proof {
                    assert(vs[i as int].name == vs[j as int].name);
                }
                return false;
            }
            j = j + 1;
        }
        i = i + 1;
    }
    proof {
        assert forall|p: int, q: int|
            0 <= p < vs.len() && 0 <= q < vs.len() && p != q implies (#[trigger] vs[p]).name != (
        #[trigger] vs[q]).name by {
            if p < q {
                assert(vs[p].name != vs[q].name);
            } else {
                assert(vs[q].name != vs[p].name);
            }
        }
    }
    true
}

impl Clone for Interfaces {
    /// The copy holds the same value.
    fn clone(&self) -> (r: Self)
        ensures
            r@ == self@,
    {
        proof {
            use_type_invariant(self);
        }
        let mut v: Vec<Interface> = Vec::new();
        let mut i: usize = 0;
        while i < self.0.len()
            invariant
                i <= self.0.len(),
                seq_views(v@) == seq_views(self.0@).take(i as int),
            decreases self.0.len() - i,
        {
            let ghost pre = seq_views(v@);
            v.push(self.0[i].clone());
            proof {
                assert(seq_views(v@) =~= pre.push(seq_views(self.0@)[i as int]));
                assert(seq_views(self.0@).take(i as int + 1) =~= pre.push(
                    seq_views(self.0@)[i as int],
                ));
            }
            i = i + 1;
        }
        proof {
            assert(seq_views(self.0@).take(self.0@.len() as int) =~= seq_views(self.0@));
            assert(seq_views(v@) == self@);
        }
        Interfaces(v)
    }
}

impl Interfaces {
    #[verifier::type_invariant]
    pub(crate) open(crate) spec fn wf(self) -> bool {
        unique_names(self@)
    }

    /// Builds the keyed set from a list of descriptors; later duplicates by
    /// name silently overwrite earlier ones.
    pub fn new(interfaces: Vec<Interface>) -> (r: Self)
        ensures
            as_map(r@) == as_map(seq_views(interfaces@)),
    {
        let mut acc: Vec<Interface> = Vec::new();
        let mut idx: usize = 0;
        while idx < interfaces.len()
            invariant
                idx <= interfaces.len(),
                unique_names(seq_views(acc@)),
                as_map(seq_views(acc@)) == as_map(seq_views(interfaces@.take(idx as int))),
            decreases interfaces.len() - idx,
        {
            let ghost pre = seq_views(acc@);
            let x = interfaces[idx].clone();
            let ghost xv = x@;
            match find_index(&acc, &x.name) {
                Some(j) => {
                    acc[j] = x;
                    proof {
                        lemma_as_map_update(pre, j as int, xv);
                        assert(seq_views(acc@) =~= pre.update(j as int, xv));
                    }
                },
                None => {
                    acc.push(x);
                    proof {
                        lemma_as_map_push(pre, xv);
                        lemma_push_keeps(pre, xv);
                        assert(seq_views(acc@) =~= pre.push(xv));
                    }
                },
            }
            proof {
                let taken = seq_views(interfaces@.take(idx as int));
                lemma_as_map_push(taken, xv);
                assert(seq_views(interfaces@.take(idx as int + 1)) =~= taken.push(xv));
            }
            idx = idx + 1;
        }
        proof {
            assert(interfaces@.take(interfaces@.len() as int) =~= interfaces@);
        }
        Interfaces(acc)
    }

    /// The keyed mapping this set describes.
    pub open spec fn key_map(&self) -> Map<Seq<char>, InterfaceV> {
        as_map(self@)
    }

    /// Whether this set and `other` describe the same mapping.
    pub fn same(&self, other: &Self) -> (r: bool)
        ensures
            r == (self.key_map() == other.key_map()),
    {
        proof {
            use_type_invariant(self);
            use_type_invariant(other);
            lemma_maps_eq_iff(self@, other@);
        }
        all_present(&self.0, &other.0) && all_present(&other.0, &self.0)
    }

    /// Diffs this set against a newer one.
    ///
    /// Every key of this set absent from `other` is emitted to `removed`;
    /// every key of `other` absent from this set is emitted to `added`; every
    /// key of both whose descriptors differ is emitted to `updated`, with the
    /// newer descriptor. Keys with equal descriptors are emitted nowhere.
    pub fn diff(&self, other: &Self) -> (r: InterfacesDiff)
        ensures
            as_map(r.removed@) == removed_map(self.key_map(), other.key_map()),
            as_map(r.added@) == added_map(self.key_map(), other.key_map()),
            as_map(r.updated@) == updated_map(self.key_map(), other.key_map()),
    {
        proof {
            use_type_invariant(self);
            use_type_invariant(other);
        }
        let ghost sv = self@;
        let ghost ov = other@;
        let ghost sm = as_map(sv);
        let ghost om = as_map(ov);
        let mut removed: Vec<Interface> = Vec::new();
        let mut i: usize = 0;
        while i < self.0.len()
            invariant
                i <= self.0@.len(),
                sv == seq_views(self.0@),
                ov == seq_views(other.0@),
                sm == as_map(sv),
                om == as_map(ov),
                unique_names(sv),
                unique_names(ov),
                unique_names(seq_views(removed@)),
                as_map(seq_views(removed@)) == removed_map(as_map(sv.take(i as int)), om),
            decreases self.0@.len() - i,
        {
            let ghost pre = seq_views(removed@);
            let ghost m_i = as_map(sv.take(i as int));
            proof {
                assert(sv.take(i as int + 1) =~= sv.take(i as int).push(sv[i as int]));
                lemma_as_map_push(sv.take(i as int), sv[i as int]);
                lemma_take_misses_name(sv, i as int);
            }
            match find_index(&other.0, &self.0[i].name) {
                None => {
                    removed.push(self.0[i].clone());
                    proof {
                        let x = sv[i as int];
                        assert(x.name == self.0@[i as int].name@);
                        lemma_absent_key(ov, x.name);
                        let newv = seq_views(removed@);
                        assert(newv =~= pre.push(x));
                        lemma_removed_dom(m_i, om, x.name);
                        assert(!contains_name(pre, x.name)) by {
                            lemma_as_map_dom(pre);
                            assert(!as_map(pre).contains_key(x.name));
                        }
                        lemma_push_keeps(pre, x);
                        lemma_as_map_push(pre, x);
                        lemma_removed_insert_absent(m_i, om, x.name, x);
                    }
                },
                Some(j) => {
                    proof {
                        let x = sv[i as int];
                        assert(x.name == self.0@[i as int].name@);
                        assert(contains_name(ov, x.name)) by {
                            assert(ov[j as int].name == x.name);
                        }
                        lemma_present_key(ov, x.name);
                        lemma_removed_insert_present(m_i, om, x.name, x);
                    }
                },
            }
            i = i + 1;
        }
        proof {
            assert(sv.take(sv.len() as int) =~= sv);
        }
        let mut added: Vec<Interface> = Vec::new();
        let mut updated: Vec<Interface> = Vec::new();
        let mut t: usize = 0;
        while t < other.0.len()
            invariant
                t <= other.0@.len(),
                sv == seq_views(self.0@),
                ov == seq_views(other.0@),
                sm == as_map(sv),
                om == as_map(ov),
                unique_names(sv),
                unique_names(ov),
                unique_names(seq_views(added@)),
                unique_names(seq_views(updated@)),
                as_map(seq_views(added@)) == added_map(sm, as_map(ov.take(t as int))),
                as_map(seq_views(updated@)) == updated_map(sm, as_map(ov.take(t as int))),
            decreases other.0@.len() - t,
        {
            let ghost pre_a = seq_views(added@);
            let ghost pre_u = seq_views(updated@);
            let ghost m_t = as_map(ov.take(t as int));
            proof {
                assert(ov.take(t as int + 1) =~= ov.take(t as int).push(ov[t as int]));
                lemma_as_map_push(ov.take(t as int), ov[t as int]);
                lemma_take_misses_name(ov, t as int);
            }
            match find_index(&self.0, &other.0[t].name) {
                None => {
                    added.push(other.0[t].clone());
                    proof {
                        let x = ov[t as int];
                        assert(x.name == other.0@[t as int].name@);
                        lemma_absent_key(sv, x.name);
                        let newv = seq_views(added@);
                        assert(newv =~= pre_a.push(x));
                        lemma_added_updated_dom(sm, m_t, x.name);
                        assert(!contains_name(pre_a, x.name)) by {
                            lemma_as_map_dom(pre_a);
                            assert(!as_map(pre_a).contains_key(x.name));
                        }
                        lemma_push_keeps(pre_a, x);
                        lemma_as_map_push(pre_a, x);
                        lemma_added_insert_absent(sm, m_t, x.name, x);
                    }
                },
                Some(j) => {
                    let changed = !iface_eq(&self.0[j], &other.0[t]);
                    proof {
                        let x = ov[t as int];
                        assert(x.name == other.0@[t as int].name@);
                        assert(sv[j as int].name == x.name);
                        lemma_as_map_index(sv, j as int);
                    }
                    if changed {
                        updated.push(other.0[t].clone());
                        proof {
                            let x = ov[t as int];
                            let newv = seq_views(updated@);
                            assert(newv =~= pre_u.push(x));
                            assert(sm.contains_key(x.name) && sm[x.name] != x);
                            lemma_added_updated_dom(sm, m_t, x.name);
                            assert(!contains_name(pre_u, x.name)) by {
                                lemma_as_map_dom(pre_u);
                                assert(!as_map(pre_u).contains_key(x.name));
                            }
                            lemma_push_keeps(pre_u, x);
                            lemma_as_map_push(pre_u, x);
                            lemma_updated_insert_changed(sm, m_t, x.name, x);
                        }
                    } else {
                        proof {
                            let x = ov[t as int];
                            assert(sm.contains_key(x.name) && sm[x.name] == x);
                            lemma_updated_insert_equal(sm, m_t, x.name, x);
                        }
                    }
                },
            }
            t = t + 1;
        }
        proof {
            assert(ov.take(ov.len() as int) =~= ov);
        }
        InterfacesDiff {
            updated: Interfaces(updated),
            added: Interfaces(added),
            removed: Interfaces(removed),
        }
    }
}

} // verus!
