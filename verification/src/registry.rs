use vstd::prelude::*;

use crate::process::{TripleView, WorkflowTriple};
use vstd::utf8::encode_utf8;

verus! {

/// Byte-wise lexicographic order on byte sequences: `a` is less than or
/// equal to `b`.  Applied to the UTF-8 encodings of version strings it is
/// exactly the standard library's string order, under which the "latest"
/// version of a workflow is resolved (so `"v2"` sorts after `"v10"`).
pub open spec fn lex_le(a: Seq<u8>, b: Seq<u8>) -> bool
    decreases a.len(),
{
    if a.len() == 0 {
        true
    } else if b.len() == 0 {
        false
    } else if a[0] < b[0] {
        true
    } else if a[0] > b[0] {
        false
    } else {
        lex_le(a.drop_first(), b.drop_first())
    }
}

/// The byte-wise order on version strings, given as character sequences.
pub open spec fn version_le(a: Seq<char>, b: Seq<char>) -> bool {
    lex_le(encode_utf8(a), encode_utf8(b))
}

/// `lex_le` is total: of any two byte sequences, one is less than or equal
/// to the other.
pub proof fn lemma_lex_le_total(a: Seq<u8>, b: Seq<u8>)
    ensures
        lex_le(a, b) || lex_le(b, a),
    decreases a.len(),
{
    if a.len() > 0 && b.len() > 0 && a[0] == b[0] {
        lemma_lex_le_total(a.drop_first(), b.drop_first());
    }
}

/// `lex_le` is reflexive.
pub proof fn lemma_lex_le_refl(a: Seq<u8>)
    ensures
        lex_le(a, a),
    decreases a.len(),
{
    if a.len() > 0 {
        lemma_lex_le_refl(a.drop_first());
    }
}

/// `lex_le` is transitive.
pub proof fn lemma_lex_le_trans(a: Seq<u8>, b: Seq<u8>, c: Seq<u8>)
    requires
        lex_le(a, b),
        lex_le(b, c),
    ensures
        lex_le(a, c),
    decreases a.len(),
{
    if a.len() > 0 && b.len() > 0 && c.len() > 0 && a[0] == b[0] && b[0] == c[0] {
        lemma_lex_le_trans(a.drop_first(), b.drop_first(), c.drop_first());
    }
}

/// Mathematical model of the registry: the registered entries in insertion
/// order, each a workflow name with its triple (the triple carries the
/// version the entry is keyed by).
pub type RegistryView = Seq<(Seq<char>, TripleView)>;

/// The first entry registered under `(name, version)`, if any.
pub open spec fn reg_lookup(rs: RegistryView, name: Seq<char>, version: Seq<char>) -> Option<
    TripleView,
>
    decreases rs.len(),
{
    if rs.len() == 0 {
        None
    } else if rs[0].0 == name && rs[0].1.version == version {
        Some(rs[0].1)
    } else {
        reg_lookup(rs.drop_first(), name, version)
    }
}

/// What registering `(name, t)` does: nothing when the `(name, t.version)`
/// slot is already taken, else the entry is appended.  First registration
/// wins; a later edit never swaps a definition out from under running
/// instances.
pub open spec fn register_spec(rs: RegistryView, name: Seq<char>, t: TripleView) -> RegistryView {
    if reg_lookup(rs, name, t.version) is Some {
        rs
    } else {
        rs.push((name, t))
    }
}

/// The running maximum of the versions registered under `name`: the largest
/// of `best` and the versions in `rs`, under `version_le`.
pub open spec fn latest_from(rs: RegistryView, name: Seq<char>, best: Option<Seq<char>>) -> Option<
    Seq<char>,
>
    decreases rs.len(),
{
    if rs.len() == 0 {
        best
    } else {
        let keep = if rs[0].0 == name && (best is None || version_le(best->0, rs[0].1.version)) {
            Some(rs[0].1.version)
        } else {
            best
        };
        latest_from(rs.drop_first(), name, keep)
    }
}

/// The maximum version registered under `name`, if any.
pub open spec fn latest_spec(rs: RegistryView, name: Seq<char>) -> Option<Seq<char>> {
    latest_from(rs, name, None)
}

/// The versioned store of workflow definitions: workflow name to version to
/// [`WorkflowTriple`], kept as the sequence of registrations.
#[derive(Debug)]
pub struct Workflows {
    pub entries: Vec<(String, WorkflowTriple)>,
}

impl View for Workflows {
    type V = RegistryView;

    open spec fn view(&self) -> RegistryView {
        self.entries@.map_values(|e: (String, WorkflowTriple)| (e.0@, e.1@))
    }
}

impl Workflows {
    /// An empty registry, as every instance starts before edit messages
    /// repopulate it.
    pub fn new() -> (r: Workflows)
        ensures
            r@ == RegistryView::empty(),
    {
        Workflows { entries: Vec::new() }
    }

    /// Registers `triple` under `name` and `triple.version`, unless that
    /// slot is already taken, in which case the call is a no-op.
    #[verifier::loop_isolation(false)]
    pub fn register(&mut self, name: String, triple: WorkflowTriple)
        ensures
            final(self)@ == register_spec(old(self)@, name@, triple@),
    {
        let taken = match self.get(&name, &triple.version) {
            Some(_) => true,
            None => false,
        };
        if !taken {
            self.entries.push((name, triple));
            proof {
                assert(self@ =~= old(self)@.push((name@, triple@)));
            }
        }
    }

    /// Looks up the triple registered under `(name, version)`.
    #[verifier::loop_isolation(false)]
    pub fn get(&self, name: &String, version: &String) -> (r: Option<&WorkflowTriple>)
        ensures
            match r {
                Some(t) => reg_lookup(self@, name@, version@) == Some(t@),
                None => reg_lookup(self@, name@, version@) is None,
            },
    {
        proof {
            assert(self@.skip(0) =~= self@);
        }
        let mut i: usize = 0;
        while i < self.entries.len()
            invariant
                i <= self.entries.len(),
                reg_lookup(self@, name@, version@) == reg_lookup(
                    self@.skip(i as int),
                    name@,
                    version@,
                ),
            decreases self.entries.len() - i,
        {
            proof {
                assert(self@.skip(i as int).drop_first() =~= self@.skip(i as int + 1));
                assert(self@.skip(i as int)[0] == self@[i as int]);
            }
            if self.entries[i].0 == *name && self.entries[i].1.version == *version {
                return Some(&self.entries[i].1);
            }
            i = i + 1;
        }
        None
    }

    /// The maximum version currently registered under `name`, under the
    /// byte-wise lexicographic string order, or `None` when the name is
    /// unknown.  Used when a status report does not carry a version.
    #[verifier::loop_isolation(false)]
    pub fn latest_version(&self, name: &String) -> (r: Option<String>)
        ensures
            match r {
                Some(v) => latest_spec(self@, name@) == Some(v@),
                None => latest_spec(self@, name@) is None,
            },
    {
        proof {
            assert(self@.skip(0) =~= self@);
        }
        let mut best: Option<usize> = None;
        let mut i: usize = 0;
        while i < self.entries.len()
            invariant
                i <= self.entries.len(),
                match best {
                    Some(j) => j < i && latest_spec(self@, name@) == latest_from(
                        self@.skip(i as int),
                        name@,
                        Some(self@[j as int].1.version),
                    ),
                    None => latest_spec(self@, name@) == latest_from(
                        self@.skip(i as int),
                        name@,
                        None,
                    ),
                },
            decreases self.entries.len() - i,
        {
            proof {
                assert(self@.skip(i as int).drop_first() =~= self@.skip(i as int + 1));
                assert(self@.skip(i as int)[0] == self@[i as int]);
            }
            if self.entries[i].0 == *name {
                let better = match best {
                    Some(j) => lex_bytes_le(
                        self.entries[j].1.version.as_str().as_bytes(),
                        self.entries[i].1.version.as_str().as_bytes(),
                    ),
                    None => true,
                };
                if better {
                    best = Some(i);
                }
            }
            i = i + 1;
        }
        match best {
            Some(j) => Some(self.entries[j].1.version.clone()),
            None => None,
        }
    }
}

/// Some version is registered under `(name, v)`.
pub open spec fn reg_has_version(rs: RegistryView, name: Seq<char>, v: Seq<char>) -> bool {
    exists|i: int| 0 <= i < rs.len() && rs[i].0 == name && rs[i].1.version == v
}

/// Looking up a freshly pushed entry finds it, when its slot was free.
proof fn lemma_reg_lookup_push_match(rs: RegistryView, name: Seq<char>, t: TripleView)
    requires
        reg_lookup(rs, name, t.version) is None,
    ensures
        reg_lookup(rs.push((name, t)), name, t.version) == Some(t),
    decreases rs.len(),
{
    if rs.len() == 0 {
        assert(rs.push((name, t)).drop_first() =~= rs);
    } else {
        assert(rs.push((name, t)).drop_first() =~= rs.drop_first().push((name, t)));
        lemma_reg_lookup_push_match(rs.drop_first(), name, t);
    }
}

/// Pushing an entry for another slot leaves a lookup unchanged.
proof fn lemma_reg_lookup_push_other(
    rs: RegistryView,
    e: (Seq<char>, TripleView),
    name: Seq<char>,
    version: Seq<char>,
)
    requires
        !(e.0 == name && e.1.version == version),
    ensures
        reg_lookup(rs.push(e), name, version) == reg_lookup(rs, name, version),
    decreases rs.len(),
{
    if rs.len() == 0 {
        assert(rs.push(e).drop_first() =~= rs);
    } else {
        assert(rs.push(e).drop_first() =~= rs.drop_first().push(e));
        lemma_reg_lookup_push_other(rs.drop_first(), e, name, version);
    }
}

/// Registration is idempotent per `(name, version)`: once a slot is taken,
/// registering the same slot again—with whatever content—changes nothing,
/// and the slot keeps its first content.
pub proof fn lemma_register_first_wins(
    rs: RegistryView,
    name: Seq<char>,
    t1: TripleView,
    t2: TripleView,
)
    requires
        t1.version == t2.version,
        reg_lookup(rs, name, t1.version) is None,
    ensures
        reg_lookup(register_spec(rs, name, t1), name, t1.version) == Some(t1),
        register_spec(register_spec(rs, name, t1), name, t2) == register_spec(rs, name, t1),
        reg_lookup(register_spec(register_spec(rs, name, t1), name, t2), name, t2.version)
            == Some(t1),
{
    lemma_reg_lookup_push_match(rs, name, t1);
}

/// Registrations of distinct versions under one name survive independently.
pub proof fn lemma_register_distinct_versions(
    rs: RegistryView,
    name: Seq<char>,
    t1: TripleView,
    t2: TripleView,
)
    requires
        t1.version != t2.version,
        reg_lookup(rs, name, t1.version) is None,
        reg_lookup(rs, name, t2.version) is None,
    ensures
        ({
            let after = register_spec(register_spec(rs, name, t1), name, t2);
            reg_lookup(after, name, t1.version) == Some(t1) && reg_lookup(after, name, t2.version)
                == Some(t2)
        }),
{
    let r1 = rs.push((name, t1));
    lemma_reg_lookup_push_match(rs, name, t1);
    lemma_reg_lookup_push_other(rs, (name, t1), name, t2.version);
    lemma_reg_lookup_push_match(r1, name, t2);
    lemma_reg_lookup_push_other(r1, (name, t2), name, t1.version);
}

/// The running maximum computed by `latest_from` is a registered version
/// (or the seed), and it bounds the seed and every matching entry.
proof fn lemma_latest_from_max(rs: RegistryView, name: Seq<char>, best: Option<Seq<char>>)
    ensures
        match latest_from(rs, name, best) {
            Some(v) => {
                &&& (best == Some(v) || reg_has_version(rs, name, v))
                &&& (best is Some ==> version_le(best->0, v))
                &&& forall|i: int|
                    0 <= i < rs.len() && rs[i].0 == name ==> version_le(#[trigger] rs[i].1.version, v)
            },
            None => {
                &&& best is None
                &&& forall|i: int| 0 <= i < rs.len() ==> rs[i].0 != name
            },
        },
    decreases rs.len(),
{
    if rs.len() == 0 {
        if best is Some {
            lemma_lex_le_refl(encode_utf8(best->0));
        }
    }
    if rs.len() > 0 {
        let rest = rs.drop_first();
        let cur = rs[0].1.version;
        let matched = rs[0].0 == name && (best is None || version_le(best->0, cur));
        let keep: Option<Seq<char>> = if matched {
            Some(cur)
        } else {
            best
        };
        lemma_latest_from_max(rest, name, keep);
        assert(forall|i: int| 0 <= i < rest.len() ==> rest[i] == rs[i + 1]);
        match latest_from(rs, name, best) {
            Some(v) => {
                assert(latest_from(rest, name, keep) == Some(v));
                if reg_has_version(rest, name, v) {
                    let i0 = choose|i: int|
                        0 <= i < rest.len() && rest[i].0 == name && rest[i].1.version == v;
                    assert(rs[i0 + 1].0 == name && rs[i0 + 1].1.version == v);
                    assert(reg_has_version(rs, name, v));
                } else {
                    assert(keep == Some(v));
                    if matched {
                        assert(v == cur);
                        assert(rs[0].0 == name && rs[0].1.version == v);
                        assert(reg_has_version(rs, name, v));
                    } else {
                        assert(best == Some(v));
                    }
                }
                if best is Some {
                    if matched {
                        lemma_lex_le_trans(
                            encode_utf8(best->0),
                            encode_utf8(cur),
                            encode_utf8(v),
                        );
                    }
                }
                assert forall|i: int|
                    0 <= i < rs.len() && rs[i].0 == name implies version_le(
                    #[trigger] rs[i].1.version,
                    v,
                ) by {
                    if i == 0 {
                        if matched {
                            assert(version_le(cur, v));
                        } else {
                            lemma_lex_le_total(encode_utf8(best->0), encode_utf8(cur));
                            lemma_lex_le_trans(
                                encode_utf8(cur),
                                encode_utf8(best->0),
                                encode_utf8(v),
                            );
                        }
                    } else {
                        assert(rest[i - 1] == rs[i]);
                    }
                }
            },
            None => {
                assert(keep is None);
                assert(rs[0].0 != name);
                assert forall|i: int| 0 <= i < rs.len() implies rs[i].0 != name by {
                    if i > 0 {
                        assert(rest[i - 1] == rs[i]);
                    }
                }
            },
        }
    }
}

/// When a status report carries no version, the resolved version is the
/// maximum registered under the name: it is itself registered there, and
/// every version registered under the name is less than or equal to it.
/// `None` comes back exactly when no version is registered for the name.
pub proof fn lemma_latest_version_resolution(rs: RegistryView, name: Seq<char>)
    ensures
        match latest_spec(rs, name) {
            Some(v) => reg_has_version(rs, name, v) && forall|i: int|
                0 <= i < rs.len() && rs[i].0 == name ==> version_le(#[trigger] rs[i].1.version, v),
            None => forall|i: int| 0 <= i < rs.len() ==> rs[i].0 != name,
        },
{
    lemma_latest_from_max(rs, name, None);
}

/// A name with no entry at all has no `(name, version)` slot either.
pub proof fn lemma_reg_lookup_absent(rs: RegistryView, name: Seq<char>, version: Seq<char>)
    requires
        forall|i: int| 0 <= i < rs.len() ==> rs[i].0 != name,
    ensures
        reg_lookup(rs, name, version) is None,
    decreases rs.len(),
{
    if rs.len() > 0 {
        assert(forall|i: int|
            0 <= i < rs.drop_first().len() ==> rs.drop_first()[i] == rs[i + 1]);
        lemma_reg_lookup_absent(rs.drop_first(), name, version);
    }
}

/// A name with no entry has no latest version.
pub proof fn lemma_latest_absent(rs: RegistryView, name: Seq<char>)
    requires
        forall|i: int| 0 <= i < rs.len() ==> rs[i].0 != name,
    ensures
        latest_spec(rs, name) is None,
{
    lemma_latest_from_max(rs, name, None);
    if latest_spec(rs, name) is Some {
        let v = latest_spec(rs, name)->0;
        assert(reg_has_version(rs, name, v));
        let i = choose|i: int| 0 <= i < rs.len() && rs[i].0 == name && rs[i].1.version == v;
        assert(rs[i].0 != name);
    }
}

/// Byte-wise lexicographic comparison of two byte slices.
#[verifier::loop_isolation(false)]
fn lex_bytes_le(a: &[u8], b: &[u8]) -> (r: bool)
    ensures
        r == lex_le(a@, b@),
{
    proof {
        assert(a@.skip(0) =~= a@);
        assert(b@.skip(0) =~= b@);
    }
    let mut i: usize = 0;
    loop
        invariant
            i <= a.len(),
            i <= b.len(),
            lex_le(a@, b@) == lex_le(a@.skip(i as int), b@.skip(i as int)),
        decreases a.len() - i,
    {
        if i >= a.len() {
            return true;
        }
        if i >= b.len() {
            return false;
        }
        proof {
            assert(a@.skip(i as int).drop_first() =~= a@.skip(i as int + 1));
            assert(b@.skip(i as int).drop_first() =~= b@.skip(i as int + 1));
        }
        let x = a[i];
        let y = b[i];
        if x < y {
            return true;
        }
        if x > y {
            return false;
        }
        i = i + 1;
    }
}

} // verus!
