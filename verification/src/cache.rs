use vstd::prelude::*;

use crate::error::Error;
use crate::fun::{Symbolic, SymbolicFun};
use crate::symbol::{copy_all, terms, Symbol, Term};

verus! {

broadcast use {
    vstd::seq_lib::group_seq_properties,
    vstd::seq_lib::group_to_multiset_ensures,
    vstd::seq_lib::lemma_multiset_commutative,
    vstd::multiset::group_multiset_axioms,
};

/// Whether `t` is a function term with this name and arity.
pub open spec fn has_signature(t: Term, name: Seq<char>, arity: nat) -> bool {
    t is Function && t->name == name && t.arity() == arity
}

/// The terms of `ts` with this name and arity, in their order in `ts`.
pub open spec fn with_signature(ts: Seq<Term>, name: Seq<char>, arity: nat) -> Seq<Term> {
    ts.filter(|t: Term| has_signature(t, name, arity))
}

/// Selecting by signature after appending a term.
proof fn lemma_with_signature_push(ts: Seq<Term>, t: Term, name: Seq<char>, arity: nat)
    ensures
        with_signature(ts.push(t), name, arity) == if has_signature(t, name, arity) {
            with_signature(ts, name, arity).push(t)
        } else {
            with_signature(ts, name, arity)
        },
{
    ts.lemma_filter_push(t, |x: Term| has_signature(x, name, arity));
}

/// The symbols of one predicate: all of one name and arity.
struct Group {
    name: String,
    arity: usize,
    symbols: Vec<Symbol>,
}

impl Group {
    spec fn wf(&self) -> bool {
        &&& self.symbols@.len() > 0
        &&& forall|i: int|
            0 <= i < self.symbols@.len() ==> has_signature(
                #[trigger] terms(self.symbols@)[i],
                self.name@,
                self.arity as nat,
            )
    }
}

/// Group `k` holds the predicate of this name and arity.
spec fn has_key(groups: Seq<Group>, k: int, name: Seq<char>, arity: nat) -> bool {
    0 <= k < groups.len() && groups[k].name@ == name && groups[k].arity == arity
}

/// No two groups hold the same predicate.
spec fn keys_distinct(groups: Seq<Group>) -> bool {
    forall|k: int, l: int|
        0 <= k < l < groups.len() ==> !(#[trigger] groups[k].name@ == #[trigger] groups[l].name@
            && groups[k].arity == groups[l].arity)
}

/// Every group is well formed.
spec fn groups_wf(groups: Seq<Group>) -> bool {
    forall|k: int| 0 <= k < groups.len() ==> (#[trigger] groups[k]).wf()
}

/// The terms of the predicate of this name and arity.
spec fn atoms_in(groups: Seq<Group>, name: Seq<char>, arity: nat) -> Seq<Term> {
    if exists|k: int| #[trigger] has_key(groups, k, name, arity) {
        terms(groups[choose|k: int| #[trigger] has_key(groups, k, name, arity)].symbols@)
    } else {
        Seq::empty()
    }
}

/// The concatenation of the terms of the groups, in order.
spec fn flat_terms(groups: Seq<Group>) -> Seq<Term>
    decreases groups.len(),
{
    if groups.len() == 0 {
        Seq::empty()
    } else {
        flat_terms(groups.drop_last()) + terms(groups.last().symbols@)
    }
}

/// With distinct keys, the predicate of group `k` is the terms of group `k`.
proof fn lemma_atoms_in_at(groups: Seq<Group>, k: int)
    requires
        keys_distinct(groups),
        0 <= k < groups.len(),
    ensures
        atoms_in(groups, groups[k].name@, groups[k].arity as nat) == terms(groups[k].symbols@),
{
    let name = groups[k].name@;
    let arity = groups[k].arity as nat;
    assert(has_key(groups, k, name, arity));
    let c = choose|c: int| #[trigger] has_key(groups, c, name, arity);
    if c != k {
        if c < k {
            assert(groups[c].name@ == groups[k].name@);
        } else {
            assert(groups[k].name@ == groups[c].name@);
        }
    }
}

/// Adding a term to one group adds it to the multiset of all terms.
proof fn lemma_flat_update(groups: Seq<Group>, k: int, g: Group, t: Term)
    requires
        0 <= k < groups.len(),
        terms(g.symbols@) == terms(groups[k].symbols@).push(t),
    ensures
        flat_terms(groups.update(k, g)).to_multiset() == flat_terms(groups).to_multiset().insert(t),
    decreases groups.len(),
{
    let n = groups.len() - 1;
    let updated = groups.update(k, g);
    assert(updated.drop_last() =~= if k == n {
        groups.drop_last()
    } else {
        groups.drop_last().update(k, g)
    });
    if k == n {
        assert(terms(updated.last().symbols@) == terms(groups.last().symbols@).push(t));
    } else {
        lemma_flat_update(groups.drop_last(), k, g, t);
    }
}


/// Selecting by signature from a concatenation selects from each part.
proof fn lemma_with_signature_add(a: Seq<Term>, b: Seq<Term>, name: Seq<char>, arity: nat)
    ensures
        with_signature(a + b, name, arity) == with_signature(a, name, arity) + with_signature(
            b,
            name,
            arity,
        ),
{
    Seq::filter_distributes_over_add(a, b, |x: Term| has_signature(x, name, arity));
}

/// Selecting by signature from terms that all have it gives them all; from
/// terms that have another one gives none.
proof fn lemma_with_signature_uniform(ts: Seq<Term>, n0: Seq<char>, a0: nat, name: Seq<char>, arity: nat)
    requires
        forall|i: int| 0 <= i < ts.len() ==> has_signature(#[trigger] ts[i], n0, a0),
    ensures
        with_signature(ts, name, arity) == if n0 == name && a0 == arity {
            ts
        } else {
            Seq::empty()
        },
    decreases ts.len(),
{
    if ts.len() > 0 {
        lemma_with_signature_uniform(ts.drop_last(), n0, a0, name, arity);
        lemma_with_signature_push(ts.drop_last(), ts.last(), name, arity);
        assert(ts.drop_last().push(ts.last()) =~= ts);
    } else {
        assert(with_signature(ts, name, arity) =~= Seq::<Term>::empty()) by {
            reveal(Seq::filter);
        }
    }
}

/// In well-formed groups with distinct keys, the group of a predicate is
/// what selecting its signature from all terms gives.
proof fn lemma_groups_select(groups: Seq<Group>, name: Seq<char>, arity: nat)
    requires
        groups_wf(groups),
        keys_distinct(groups),
    ensures
        with_signature(flat_terms(groups), name, arity) == atoms_in(groups, name, arity),
    decreases groups.len(),
{
    if groups.len() == 0 {
        assert(with_signature(flat_terms(groups), name, arity) =~= Seq::<Term>::empty()) by {
            reveal(Seq::filter);
        }
    } else {
        let init = groups.drop_last();
        let last = groups.last();
        let k = groups.len() - 1;
        assert(groups_wf(init) && keys_distinct(init));
        lemma_groups_select(init, name, arity);
        lemma_with_signature_add(flat_terms(init), terms(last.symbols@), name, arity);
        assert(last.wf());
        lemma_with_signature_uniform(terms(last.symbols@), last.name@, last.arity as nat, name, arity);
        if last.name@ == name && last.arity == arity {
            lemma_atoms_in_at(groups, k);
            assert forall|j: int| !(#[trigger] has_key(init, j, name, arity)) by {
                if has_key(init, j, name, arity) {
                    assert(groups[j] == init[j]);
                }
            }
            assert(atoms_in(init, name, arity) =~= Seq::<Term>::empty());
        } else {
            assert forall|j: int|
                #![trigger has_key(groups, j, name, arity)]
                #![trigger has_key(init, j, name, arity)]
                has_key(groups, j, name, arity) == has_key(init, j, name, arity) by {
                if 0 <= j < init.len() {
                    assert(groups[j] == init[j]);
                }
            }
            if exists|j: int| #[trigger] has_key(groups, j, name, arity) {
                let j = choose|j: int| #[trigger] has_key(groups, j, name, arity);
                assert(groups[j] == init[j]);
                lemma_atoms_in_at(groups, j);
                lemma_atoms_in_at(init, j);
            }
        }
    }
}

/// `r` is what reading the terms `g` one by one as `T` gives: every value
/// when all of them read, in order; otherwise a type mismatch that holds the
/// first term that does not read.
pub open spec fn read_outcome<T: Symbolic>(g: Seq<Term>, r: Result<Vec<T>, Error>) -> bool {
    &&& r is Ok <==> forall|i: int| 0 <= i < g.len() ==> T::decodes(#[trigger] g[i])
    &&& r matches Ok(v) ==> v@.len() == g.len() && forall|i: int|
        0 <= i < g.len() ==> (#[trigger] v@[i]).represents(g[i])
    &&& r matches Err(e) ==> e is TypeMismatch && exists|i: int|
        0 <= i < g.len() && !T::decodes(#[trigger] g[i]) && e->TypeMismatch_0@ == g[i]
            && forall|j: int| 0 <= j < i ==> T::decodes(g[j])
}

/// Reading the same terms twice gives the same outcome: both succeed or
/// both fail; on success the values write the same terms, on failure both
/// errors hold the same symbol.
pub proof fn lemma_read_outcome_unique<T: Symbolic>(
    g: Seq<Term>,
    r1: Result<Vec<T>, Error>,
    r2: Result<Vec<T>, Error>,
)
    requires
        read_outcome(g, r1),
        read_outcome(g, r2),
    ensures
        r1 is Ok <==> r2 is Ok,
        r1 matches Ok(v1) ==> r2 matches Ok(v2) && v1@.len() == v2@.len() && forall|i: int|
            0 <= i < v1@.len() ==> (#[trigger] v1@[i]).encode() == v2@[i].encode(),
        r1 matches Err(e1) ==> r2 matches Err(e2) && e1 is TypeMismatch && e2 is TypeMismatch
            && e1->TypeMismatch_0@ == e2->TypeMismatch_0@,
{
    if let Ok(v1) = r1 {
        if let Ok(v2) = r2 {
            assert forall|i: int| 0 <= i < v1@.len() implies (#[trigger] v1@[i]).encode()
                == v2@[i].encode() by {
                v1@[i].lemma_represents_unique(&v2@[i], g[i]);
            }
        }
    }
    if let Err(e1) = r1 {
        if let Err(e2) = r2 {
            let i1 = choose|i: int|
                0 <= i < g.len() && !T::decodes(#[trigger] g[i]) && e1->TypeMismatch_0@ == g[i]
                    && forall|j: int| 0 <= j < i ==> T::decodes(g[j]);
            let i2 = choose|i: int|
                0 <= i < g.len() && !T::decodes(#[trigger] g[i]) && e2->TypeMismatch_0@ == g[i]
                    && forall|j: int| 0 <= j < i ==> T::decodes(g[j]);
            if i1 < i2 {
                assert(T::decodes(g[i1]));
            } else if i2 < i1 {
                assert(T::decodes(g[i2]));
            }
        }
    }
}

/// Reading the atoms of `T` from a cache built from `symbols` reads the
/// symbols of `T`'s name and arity, in their order in `symbols`: every value
/// when all read, else a mismatch on the first that does not; and two such
/// reads agree.
pub proof fn lemma_cache_read<T: SymbolicFun>(
    symbols: Seq<Term>,
    c: ModelCache,
    r1: Result<Vec<T>, Error>,
    r2: Result<Vec<T>, Error>,
)
    requires
        forall|name: Seq<char>, arity: nat|
            #[trigger] c.atoms_of(name, arity) == with_signature(symbols, name, arity),
        read_outcome(c.atoms_of(T::spec_signature().0, T::spec_signature().1), r1),
        read_outcome(c.atoms_of(T::spec_signature().0, T::spec_signature().1), r2),
    ensures
        read_outcome(with_signature(symbols, T::spec_signature().0, T::spec_signature().1), r1),
        r1 is Ok <==> r2 is Ok,
        r1 matches Ok(v1) ==> r2 matches Ok(v2) && v1@.len() == v2@.len() && forall|i: int|
            0 <= i < v1@.len() ==> (#[trigger] v1@[i]).encode() == v2@[i].encode(),
        r1 matches Err(e1) ==> r2 matches Err(e2) && e1->TypeMismatch_0@ == e2->TypeMismatch_0@,
{
    let g = c.atoms_of(T::spec_signature().0, T::spec_signature().1);
    lemma_read_outcome_unique(g, r1, r2);
}

/// An owned snapshot of the atoms of a model, grouped by predicate (name and
/// arity). The groups are kept in the order in which their first atom came,
/// with no predicate twice, so that `symbols` lists them in a fixed order;
/// a lookup scans the groups.
pub struct ModelCache {
    groups: Vec<Group>,
}

impl ModelCache {
    #[verifier::type_invariant]
    spec fn inv(&self) -> bool {
        &&& groups_wf(self.groups@)
        &&& keys_distinct(self.groups@)
    }

    /// The cached atoms with this name and arity, in the order they were
    /// cached.
    pub closed spec fn atoms_of(&self, name: Seq<char>, arity: nat) -> Seq<Term> {
        atoms_in(self.groups@, name, arity)
    }

    /// All cached atoms, predicate by predicate.
    pub closed spec fn all_atoms(&self) -> Seq<Term> {
        flat_terms(self.groups@)
    }

    /// The index of the group of this name and arity, if there is one.
    fn find(groups: &Vec<Group>, name: &String, arity: usize) -> (r: Option<usize>)
        requires
            keys_distinct(groups@),
        ensures
            match r {
                Some(k) => has_key(groups@, k as int, name@, arity as nat),
                None => forall|k: int| !(#[trigger] has_key(groups@, k, name@, arity as nat)),
            },
    {
        let mut k: usize = 0;
        while k < groups.len()
            invariant
                k <= groups@.len(),
                forall|j: int| 0 <= j < k ==> !(#[trigger] has_key(groups@, j, name@, arity as nat)),
            decreases groups@.len() - k,
        {
            if groups[k].arity == arity && groups[k].name == *name {
                return Some(k);
            }
            k = k + 1;
        }
        None
    }

    /// Group function symbols by predicate.
    pub fn from_symbols(symbols: Vec<Symbol>) -> (r: ModelCache)
        requires
            forall|i: int| 0 <= i < symbols@.len() ==> (#[trigger] symbols@[i])@ is Function,
        ensures
            forall|name: Seq<char>, arity: nat|
                #[trigger] r.atoms_of(name, arity) == with_signature(terms(symbols@), name, arity),
            r.all_atoms().to_multiset() == terms(symbols@).to_multiset(),
    {
        let ghost input = terms(symbols@);
        let mut groups: Vec<Group> = Vec::new();
        let mut i: usize = 0;
        assert(flat_terms(groups@) =~= input.subrange(0, 0));
        while i < symbols.len()
            invariant
                input == terms(symbols@),
                i <= symbols@.len(),
                forall|j: int| 0 <= j < symbols@.len() ==> (#[trigger] symbols@[j])@ is Function,
                groups_wf(groups@),
                keys_distinct(groups@),
                forall|name: Seq<char>, arity: nat|
                    #[trigger] atoms_in(groups@, name, arity) == with_signature(
                        input.subrange(0, i as int),
                        name,
                        arity,
                    ),
                flat_terms(groups@).to_multiset() == input.subrange(0, i as int).to_multiset(),
            decreases symbols@.len() - i,
        {
            let ghost prefix = input.subrange(0, i as int);
            let ghost next = input.subrange(0, i + 1);
            let ghost old_groups = groups@;
            let sym = symbols[i].duplicate();
            let ghost t = sym@;
            assert(next =~= prefix.push(t));
            let name = sym.name().unwrap().to_owned();
            let arity = sym.arity().unwrap();
            assert(has_signature(t, name@, arity as nat));
            match ModelCache::find(&groups, &name, arity) {
                Some(k) => {
                    let mut g = groups.remove(k);
                    g.symbols.push(sym);
                    assert(terms(g.symbols@) =~= terms(old_groups[k as int].symbols@).push(t));
                    groups.insert(k, g);
                    assert(groups@ =~= old_groups.update(k as int, g));
                    proof {
                        assert forall|j: int| 0 <= j < groups@.len() implies #[trigger] groups@[j].name@
                            == old_groups[j].name@ && groups@[j].arity == old_groups[j].arity by {}
                        assert(keys_distinct(groups@));
                        assert forall|j: int|
                            0 <= j < groups@.len() implies (#[trigger] groups@[j]).wf() by {
                            if j == k {
                                assert forall|m: int| 0 <= m < g.symbols@.len() implies has_signature(
                                    #[trigger] terms(g.symbols@)[m],
                                    g.name@,
                                    g.arity as nat,
                                ) by {
                                    if m < g.symbols@.len() - 1 {
                                        assert(terms(g.symbols@)[m] == terms(
                                            old_groups[k as int].symbols@,
                                        )[m]);
                                    }
                                }
                            }
                        }
                        assert forall|name2: Seq<char>, arity2: nat|
                            #[trigger] atoms_in(groups@, name2, arity2) == with_signature(
                                next,
                                name2,
                                arity2,
                            ) by {
                            lemma_with_signature_push(prefix, t, name2, arity2);
                            if name2 == name@ && arity2 == arity as nat {
                                lemma_atoms_in_at(old_groups, k as int);
                                lemma_atoms_in_at(groups@, k as int);
                                assert(atoms_in(old_groups, name2, arity2) == terms(old_groups[k as int].symbols@));
                                assert(atoms_in(old_groups, name2, arity2) == with_signature(prefix, name2, arity2));
                                assert(atoms_in(groups@, name2, arity2) == terms(g.symbols@));
                                assert(with_signature(next, name2, arity2) == with_signature(prefix, name2, arity2).push(t));
                                assert(atoms_in(groups@, name2, arity2) == with_signature(next, name2, arity2));
                            } else {
                                assert forall|j: int|
                                    #![trigger has_key(groups@, j, name2, arity2)]
                                    #![trigger has_key(old_groups, j, name2, arity2)]
                                    has_key(groups@, j, name2, arity2) == has_key(
                                        old_groups,
                                        j,
                                        name2,
                                        arity2,
                                    ) by {}
                                if exists|j: int| #[trigger] has_key(groups@, j, name2, arity2) {
                                    let j = choose|j: int| #[trigger] has_key(groups@, j, name2, arity2);
                                    assert(j != k);
                                    assert(groups@[j] == old_groups[j]);
                                    lemma_atoms_in_at(old_groups, j);
                                    lemma_atoms_in_at(groups@, j);
                                    assert(atoms_in(groups@, name2, arity2) == atoms_in(old_groups, name2, arity2));
                                } else {
                                    assert(atoms_in(groups@, name2, arity2) == atoms_in(old_groups, name2, arity2));
                                }
                                assert(!has_signature(t, name2, arity2));
                                assert(with_signature(next, name2, arity2) == with_signature(prefix, name2, arity2));
                                assert(atoms_in(groups@, name2, arity2) == with_signature(next, name2, arity2));
                            }
                        }
                        lemma_flat_update(old_groups, k as int, g, t);
                    }
                },
                None => {
                    let mut symbols_of: Vec<Symbol> = Vec::new();
                    symbols_of.push(sym);
                    let g = Group { name, arity, symbols: symbols_of };
                    assert(terms(g.symbols@) =~= seq![t]);
                    groups.push(g);
                    proof {
                        assert(groups@.drop_last() =~= old_groups);
                        assert forall|j: int|
                            0 <= j < groups@.len() implies (#[trigger] groups@[j]).wf() by {
                            if j < old_groups.len() {
                                assert(groups@[j] == old_groups[j]);
                            }
                        }
                        assert forall|k1: int, l1: int|
                            0 <= k1 < l1 < groups@.len() implies !(#[trigger] groups@[k1].name@
                            == #[trigger] groups@[l1].name@ && groups@[k1].arity
                            == groups@[l1].arity) by {
                            if l1 == old_groups.len() {
                                assert(!has_key(old_groups, k1, name@, arity as nat));
                            } else {
                                assert(groups@[k1] == old_groups[k1]);
                                assert(groups@[l1] == old_groups[l1]);
                            }
                        }
                        assert forall|name2: Seq<char>, arity2: nat|
                            #[trigger] atoms_in(groups@, name2, arity2) == with_signature(
                                next,
                                name2,
                                arity2,
                            ) by {
                            lemma_with_signature_push(prefix, t, name2, arity2);
                            let last = old_groups.len() as int;
                            if name2 == name@ && arity2 == arity as nat {
                                lemma_atoms_in_at(groups@, last);
                                assert(atoms_in(old_groups, name2, arity2) =~= Seq::<Term>::empty());
                                assert(groups@[last] == g);
                                assert(atoms_in(groups@, name2, arity2) =~= seq![t]);
                                assert(with_signature(prefix, name2, arity2) =~= Seq::<Term>::empty());
                                assert(with_signature(next, name2, arity2) =~= seq![t]);
                            } else {
                                assert forall|j: int|
                                    #![trigger has_key(groups@, j, name2, arity2)]
                                    #![trigger has_key(old_groups, j, name2, arity2)]
                                    has_key(groups@, j, name2, arity2) == has_key(
                                        old_groups,
                                        j,
                                        name2,
                                        arity2,
                                    ) by {
                                    if 0 <= j < old_groups.len() {
                                        assert(groups@[j] == old_groups[j]);
                                    }
                                }
                                if exists|j: int| #[trigger] has_key(groups@, j, name2, arity2) {
                                    let j = choose|j: int| #[trigger] has_key(groups@, j, name2, arity2);
                                    assert(j < last);
                                    assert(groups@[j] == old_groups[j]);
                                    lemma_atoms_in_at(old_groups, j);
                                    lemma_atoms_in_at(groups@, j);
                                    assert(atoms_in(groups@, name2, arity2) == atoms_in(old_groups, name2, arity2));
                                } else {
                                    assert(atoms_in(groups@, name2, arity2) == atoms_in(old_groups, name2, arity2));
                                }
                                assert(!has_signature(t, name2, arity2));
                                assert(with_signature(next, name2, arity2) == with_signature(prefix, name2, arity2));
                            }
                        }
                        assert(flat_terms(groups@) == flat_terms(old_groups) + seq![t]);
                    }
                },
            }
            i = i + 1;
        }
        assert(input.subrange(0, i as int) =~= input);
        ModelCache { groups }
    }

    /// The symbols of this name and arity, in the order they were cached;
    /// empty when there are none.
    pub fn get_pred<'a, 'b: 'a>(&'a self, name: &'b str, arity: usize) -> (r: &'a [Symbol])
        ensures
            terms(r@) == self.atoms_of(name@, arity as nat),
    {
        proof {
            use_type_invariant(self);
        }
        let key = name.to_owned();
        match ModelCache::find(&self.groups, &key, arity) {
            Some(k) => {
                proof {
                    lemma_atoms_in_at(self.groups@, k as int);
                }
                self.groups[k].symbols.as_slice()
            },
            None => {
                let r: &[Symbol] = &[];
                assert(terms(r@) =~= Seq::<Term>::empty());
                r
            },
        }
    }

    /// Every cached symbol, predicate by predicate.
    pub fn symbols(&self) -> (r: Vec<Symbol>)
        ensures
            terms(r@) == self.all_atoms(),
            forall|name: Seq<char>, arity: nat|
                #[trigger] with_signature(terms(r@), name, arity) == self.atoms_of(name, arity),
    {
        proof {
            use_type_invariant(self);
            assert forall|name: Seq<char>, arity: nat|
                #[trigger] with_signature(flat_terms(self.groups@), name, arity) == self.atoms_of(
                    name,
                    arity,
                ) by {
                lemma_groups_select(self.groups@, name, arity);
            }
        }
        let mut r: Vec<Symbol> = Vec::new();
        let mut k: usize = 0;
        while k < self.groups.len()
            invariant
                k <= self.groups@.len(),
                terms(r@) == flat_terms(self.groups@.subrange(0, k as int)),
            decreases self.groups@.len() - k,
        {
            let ghost before = terms(r@);
            let part = copy_all(self.groups[k].symbols.as_slice());
            let mut j: usize = 0;
            let mut part = part;
            let ghost part_terms = terms(part@);
            while j < part.len()
                invariant
                    j <= part@.len(),
                    part_terms == terms(part@),
                    terms(r@) == before + part_terms.subrange(0, j as int),
                decreases part@.len() - j,
            {
                let ghost prev = r@;
                r.push(part[j].duplicate());
                assert(terms(r@) =~= terms(prev).push(part@[j as int]@));
                assert(part_terms.subrange(0, j + 1) =~= part_terms.subrange(0, j as int).push(
                    part@[j as int]@,
                ));
                j = j + 1;
            }
            assert(part_terms.subrange(0, j as int) =~= part_terms);
            assert(self.groups@.subrange(0, k + 1).drop_last() =~= self.groups@.subrange(0, k as int));
            k = k + 1;
        }
        assert(self.groups@.subrange(0, k as int) =~= self.groups@);
        r
    }

    /// Read every cached atom of the predicate of `T`, in the order they
    /// were cached; the first atom that does not read as a `T` gives a
    /// type mismatch error.
    pub fn atoms<T: SymbolicFun>(&self) -> (r: Result<Vec<T>, Error>)
        ensures
            read_outcome(self.atoms_of(T::spec_signature().0, T::spec_signature().1), r),
    {
        let (name, arity) = T::signature();
        let syms = self.get_pred(name, arity);
        let ghost g = terms(syms@);
        let mut out: Vec<T> = Vec::new();
        let mut i: usize = 0;
        while i < syms.len()
            invariant
                g == terms(syms@),
                g == self.atoms_of(T::spec_signature().0, T::spec_signature().1),
                i <= syms@.len(),
                out@.len() == i,
                forall|j: int| 0 <= j < i ==> T::decodes(#[trigger] g[j]),
                forall|j: int| 0 <= j < i ==> (#[trigger] out@[j]).represents(g[j]),
            decreases syms@.len() - i,
        {
            let sym = syms[i].duplicate();
            assert(sym@ == g[i as int]);
            match T::from_symbol_result(sym) {
                Ok(x) => {
                    out.push(x);
                },
                Err(e) => {
                    return Err(e);
                },
            }
            i = i + 1;
        }
        Ok(out)
    }
}

impl Clone for ModelCache {
    fn clone(&self) -> (r: ModelCache)
        ensures
            forall|name: Seq<char>, arity: nat| #[trigger] r.atoms_of(name, arity) == self.atoms_of(name, arity),
            r.all_atoms() == self.all_atoms(),
    {
        proof {
            use_type_invariant(self);
        }
        let mut groups: Vec<Group> = Vec::new();
        let mut k: usize = 0;
        while k < self.groups.len()
            invariant
                k <= self.groups@.len(),
                groups_wf(self.groups@),
                keys_distinct(self.groups@),
                groups@.len() == k,
                forall|j: int| 0 <= j < k ==> (#[trigger] groups@[j]).name@ == self.groups@[j].name@
                    && groups@[j].arity == self.groups@[j].arity
                    && terms(groups@[j].symbols@) == terms(self.groups@[j].symbols@),
            decreases self.groups@.len() - k,
        {
            let g = &self.groups[k];
            let copy = Group {
                name: g.name.clone(),
                arity: g.arity,
                symbols: copy_all(g.symbols.as_slice()),
            };
            groups.push(copy);
            k = k + 1;
        }
        proof {
            assert forall|j: int| 0 <= j < groups@.len() implies (#[trigger] groups@[j]).wf() by {
                assert(self.groups@[j].wf());
                assert(terms(groups@[j].symbols@).len() == groups@[j].symbols@.len());
            }
            assert forall|j: int| 0 <= j <= groups@.len() implies flat_terms(
                #[trigger] groups@.subrange(0, j),
            ) == flat_terms(self.groups@.subrange(0, j)) by {
                lemma_flat_prefix(groups@, self.groups@, j);
            }
            assert(groups@.subrange(0, groups@.len() as int) =~= groups@);
            assert(self.groups@.subrange(0, groups@.len() as int) =~= self.groups@);
            assert forall|name: Seq<char>, arity: nat|
                #[trigger] atoms_in(groups@, name, arity) == atoms_in(self.groups@, name, arity) by {
                if exists|j: int| #[trigger] has_key(self.groups@, j, name, arity) {
                    let j = choose|j: int| #[trigger] has_key(self.groups@, j, name, arity);
                    lemma_atoms_in_at(self.groups@, j);
                    lemma_atoms_in_at(groups@, j);
                } else {
                    assert forall|j: int| !(#[trigger] has_key(groups@, j, name, arity)) by {
                        if has_key(groups@, j, name, arity) {
                            assert(has_key(self.groups@, j, name, arity));
                        }
                    }
                }
            }
        }
        ModelCache { groups }
    }
}

/// Groups with the same terms in the same order flatten to the same terms.
proof fn lemma_flat_prefix(a: Seq<Group>, b: Seq<Group>, j: int)
    requires
        a.len() == b.len(),
        0 <= j <= a.len(),
        forall|i: int| 0 <= i < a.len() ==> terms((#[trigger] a[i]).symbols@) == terms(b[i].symbols@),
    ensures
        flat_terms(a.subrange(0, j)) == flat_terms(b.subrange(0, j)),
    decreases j,
{
    if j > 0 {
        lemma_flat_prefix(a, b, j - 1);
        assert(a.subrange(0, j).drop_last() =~= a.subrange(0, j - 1));
        assert(b.subrange(0, j).drop_last() =~= b.subrange(0, j - 1));
    }
}

} // verus!
