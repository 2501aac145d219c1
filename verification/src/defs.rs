//! The macro definition table.
//!
//! At most one definition per identifier. Protected definitions (the
//! built-ins, and everything the driver recognizes by its `GL_` prefix)
//! cannot be redefined or removed; an attempt leaves the table unchanged.

use vstd::prelude::*;

use crate::events::{Define, DefineM};
use crate::lex::{text_eq, text_eq_str};
use crate::FileId;

verus! {

/// A macro definition: a regular `#define`, or one of the three built-ins
/// synthesized at expansion time.
#[derive(Debug)]
pub enum Definition {
    /// A definition made by a `#define` directive, with the file that made
    /// it.
    Regular { define: Define, file: FileId },
    /// The built-in `__LINE__` macro.
    Line,
    /// The built-in `__FILE__` macro.
    File,
    /// The built-in `__VERSION__` macro.
    Version,
}

/// The model of a definition.
#[verifier::ext_equal]
pub ghost enum DefM {
    Regular { define: DefineM, file: FileId },
    Line,
    File,
    Version,
}

impl View for Definition {
    type V = DefM;

    open spec fn view(&self) -> DefM {
        match self {
            Definition::Regular { define, file } => DefM::Regular {
                define: define@,
                file: *file,
            },
            Definition::Line => DefM::Line,
            Definition::File => DefM::File,
            Definition::Version => DefM::Version,
        }
    }
}

impl DeepView for Definition {
    type V = DefM;

    open spec fn deep_view(&self) -> DefM {
        self.view()
    }
}

/// The identifier a definition is known under.
pub open spec fn def_name_m(d: DefM) -> Seq<char> {
    match d {
        DefM::Regular { define, .. } => define.name,
        DefM::Line => "__LINE__"@,
        DefM::File => "__FILE__"@,
        DefM::Version => "__VERSION__"@,
    }
}

/// Whether a definition is protected. The built-ins always are.
pub open spec fn def_protected_m(d: DefM) -> bool {
    match d {
        DefM::Regular { define, .. } => define.protected,
        DefM::Line => true,
        DefM::File => true,
        DefM::Version => true,
    }
}

/// No two entries share a name.
pub open spec fn names_unique(s: Seq<DefM>) -> bool {
    forall|i: int, j: int|
        0 <= i < j < s.len() ==> def_name_m(#[trigger] s[i]) != def_name_m(#[trigger] s[j])
}

/// Whether some entry is known under the name.
pub open spec fn contains_name(s: Seq<DefM>, n: Seq<char>) -> bool {
    exists|i: int| 0 <= i < s.len() && def_name_m(#[trigger] s[i]) == n
}

/// The index of the entry known under the name.
pub open spec fn index_of_name(s: Seq<DefM>, n: Seq<char>) -> int {
    choose|i: int| 0 <= i < s.len() && def_name_m(#[trigger] s[i]) == n
}

/// The entry known under the name.
pub open spec fn lookup_name(s: Seq<DefM>, n: Seq<char>) -> DefM {
    s[index_of_name(s, n)]
}

/// Decide whether a definition is known under the given name.
pub fn name_matches(d: &Definition, name: &Vec<char>) -> (r: bool)
    ensures
        r == (def_name_m(d@) == name@),
{
    match d {
        Definition::Regular { define, .. } => text_eq(&define.name, name),
        Definition::Line => text_eq_str(name, "__LINE__"),
        Definition::File => text_eq_str(name, "__FILE__"),
        Definition::Version => text_eq_str(name, "__VERSION__"),
    }
}

/// The name of a definition, as a fresh text.
pub fn def_name(d: &Definition) -> (r: Vec<char>)
    ensures
        r@ == def_name_m(d@),
{
    match d {
        Definition::Regular { define, .. } => crate::lex::copy_range(
            &define.name,
            0,
            define.name.len(),
        ),
        Definition::Line => crate::lex::chars_of("__LINE__"),
        Definition::File => crate::lex::chars_of("__FILE__"),
        Definition::Version => crate::lex::chars_of("__VERSION__"),
    }
}

/// The outcome of an `#undef`.
#[derive(Clone, Copy, Debug, PartialEq, Eq, Structural)]
pub enum UndefOutcome {
    /// The definition was removed.
    Removed,
    /// There was nothing to remove; not an error.
    Absent,
    /// The name is protected; the table is unchanged.
    Protected,
}

/// Mapping from identifier to macro definition.
#[derive(Debug)]
pub struct DefinitionTable {
    pub entries: Vec<Definition>,
}

impl View for DefinitionTable {
    type V = Seq<DefM>;

    open spec fn view(&self) -> Seq<DefM> {
        self.entries.deep_view()
    }
}

impl DefinitionTable {
    /// The table invariant: one entry per name.
    pub open spec fn wf(&self) -> bool {
        names_unique(self@)
    }

    /// An empty table.
    pub fn new() -> (r: DefinitionTable)
        ensures
            r@ =~= Seq::<DefM>::empty(),
            r.wf(),
    {
        let r = DefinitionTable { entries: Vec::new() };
        assert(r@ =~= Seq::<DefM>::empty());
        r
    }

    /// Find the index holding the name, if any.
    fn find(&self, name: &Vec<char>) -> (r: Option<usize>)
        ensures
            match r {
                Option::Some(i) => i < self@.len() && def_name_m(self@[i as int]) == name@,
                Option::None => !contains_name(self@, name@),
            },
    {
        let n = self.entries.len();
        let mut i: usize = 0;
        while i < n
            invariant
                i <= n,
                n == self@.len(),
                forall|j: int| 0 <= j < i ==> def_name_m(#[trigger] self@[j]) != name@,
            decreases n - i,
        {
            if name_matches(&self.entries[i], name) {
                return Option::Some(i);
            }
            i += 1;
        }
        Option::None
    }

    /// Look a name up.
    pub fn lookup(&self, name: &Vec<char>) -> (r: Option<&Definition>)
        requires
            self.wf(),
        ensures
            match r {
                Option::Some(d) => contains_name(self@, name@) && d@ == lookup_name(
                    self@,
                    name@,
                ),
                Option::None => !contains_name(self@, name@),
            },
    {
        match self.find(name) {
            Option::Some(i) => {
                let d = &self.entries[i];
                proof {
                    let k = index_of_name(self@, name@);
                    assert(0 <= k < self@.len() && def_name_m(self@[k]) == name@);
                    assert(k == i as int);
                }
                Option::Some(d)
            },
            Option::None => Option::None,
        }
    }

    /// Whether the name is defined.
    pub fn defined(&self, name: &Vec<char>) -> (r: bool)
        requires
            self.wf(),
        ensures
            r == contains_name(self@, name@),
    {
        match self.find(name) {
            Option::Some(_) => true,
            Option::None => false,
        }
    }

    /// Install a definition for a name that is not yet present (used to seed
    /// the built-ins of the initial state).
    pub fn insert_new(&mut self, d: Definition)
        requires
            old(self).wf(),
            !contains_name(old(self)@, def_name_m(d@)),
        ensures
            final(self)@ == old(self)@.push(d@),
            final(self).wf(),
    {
        let ghost prev = self@;
        let ghost dm = d@;
        self.entries.push(d);
        proof {
            assert(self@ =~= prev.push(dm));
            assert forall|i: int, j: int| 0 <= i < j < self@.len() implies def_name_m(
                #[trigger] self@[i],
            ) != def_name_m(#[trigger] self@[j]) by {
                if j < prev.len() {
                } else {
                    assert(self@[j] == dm);
                    assert(!contains_name(prev, def_name_m(dm)));
                    assert(def_name_m(prev[i]) != def_name_m(dm));
                }
            }
        }
    }

    /// Handle a `#define`: insert when absent, replace when present and
    /// unprotected, refuse and leave everything unchanged when present and
    /// protected.
    pub fn define(&mut self, define: Define, file: FileId) -> (ok: bool)
        requires
            old(self).wf(),
        ensures
            final(self).wf(),
            ({
                let name = define@.name;
                let dm = (DefM::Regular { define: define@, file: file });
                if !contains_name(old(self)@, name) {
                    ok && final(self)@ == old(self)@.push(dm)
                } else if def_protected_m(lookup_name(old(self)@, name)) {
                    !ok && final(self)@ == old(self)@
                } else {
                    ok && final(self)@ == old(self)@.update(index_of_name(old(self)@, name), dm)
                }
            }),
            ok ==> contains_name(final(self)@, define@.name) && lookup_name(
                final(self)@,
                define@.name,
            ) == (DefM::Regular { define: define@, file: file }),
            forall|m: Seq<char>|
                m != define@.name ==> #[trigger] contains_name(final(self)@, m) == contains_name(
                    old(self)@,
                    m,
                ),
            forall|m: Seq<char>|
                m != define@.name && contains_name(old(self)@, m) ==> #[trigger] lookup_name(
                    final(self)@,
                    m,
                ) == lookup_name(old(self)@, m),
    {
        let ghost prev = self@;
        let ghost name = define@.name;
        let found = self.find(&define.name);
        match found {
            Option::None => {
                let ghost dm = DefM::Regular { define: define@, file: file };
                self.entries.push(Definition::Regular { define, file });
                proof {
                    assert(self@ =~= prev.push(dm));
                    assert forall|i: int, j: int| 0 <= i < j < self@.len() implies def_name_m(
                        #[trigger] self@[i],
                    ) != def_name_m(#[trigger] self@[j]) by {
                        if j < prev.len() {
                        } else {
                            assert(self@[j] == dm);
                            assert(def_name_m(prev[i]) != name);
                        }
                    }
                    lemma_other_names_push(prev, dm);
                    assert(def_name_m(self@[prev.len() as int]) == name);
                    assert(contains_name(self@, name));
                    let k2 = index_of_name(self@, name);
                    assert(0 <= k2 < self@.len() && def_name_m(self@[k2]) == name);
                    if k2 < prev.len() {
                        assert(self@[k2] == prev[k2]);
                        assert(false);
                    }
                    assert(lookup_name(self@, name) == dm);
                }
                true
            },
            Option::Some(i) => {
                proof {
                    let k = index_of_name(prev, name);
                    assert(0 <= k < prev.len() && def_name_m(prev[k]) == name);
                    assert(k == i as int);
                }
                let protected = match &self.entries[i] {
                    Definition::Regular { define: d, .. } => d.protected,
                    Definition::Line => true,
                    Definition::File => true,
                    Definition::Version => true,
                };
                if protected {
                    false
                } else {
                    let ghost dm = DefM::Regular { define: define@, file: file };
                    self.entries.set(i, Definition::Regular { define, file });
                    proof {
                        assert(self@ =~= prev.update(i as int, dm));
                        assert forall|a: int, b: int| 0 <= a < b < self@.len() implies def_name_m(
                            #[trigger] self@[a],
                        ) != def_name_m(#[trigger] self@[b]) by {
                            if a != i as int && b != i as int {
                                assert(self@[a] == prev[a] && self@[b] == prev[b]);
                            } else if a == i as int {
                                assert(def_name_m(self@[a]) == name);
                                assert(self@[b] == prev[b]);
                                assert(def_name_m(prev[b]) != def_name_m(prev[i as int]));
                            } else {
                                assert(def_name_m(self@[b]) == name);
                                assert(self@[a] == prev[a]);
                                assert(def_name_m(prev[a]) != def_name_m(prev[i as int]));
                            }
                        }
                        lemma_other_names_update(prev, i as int, dm);
                        assert(def_name_m(self@[i as int]) == name);
                        assert(contains_name(self@, name));
                        let k2 = index_of_name(self@, name);
                        assert(0 <= k2 < self@.len() && def_name_m(self@[k2]) == name);
                        assert(k2 == i as int);
                    }
                    true
                }
            },
        }
    }

    /// Handle an `#undef`: refuse protected names (the `GL_` prefix counts
    /// as protected whether or not the name is defined), remove an
    /// unprotected definition, accept an absent name silently.
    pub fn undef(&mut self, name: &Vec<char>) -> (r: UndefOutcome)
        requires
            old(self).wf(),
        ensures
            final(self).wf(),
            ({
                if crate::lex::text_starts_with(name@, "GL_"@) {
                    r == UndefOutcome::Protected && final(self)@ == old(self)@
                } else if !contains_name(old(self)@, name@) {
                    r == UndefOutcome::Absent && final(self)@ == old(self)@
                } else if def_protected_m(lookup_name(old(self)@, name@)) {
                    r == UndefOutcome::Protected && final(self)@ == old(self)@
                } else {
                    r == UndefOutcome::Removed && final(self)@ == old(self)@.remove(
                        index_of_name(old(self)@, name@),
                    ) && !contains_name(final(self)@, name@)
                }
            }),
            forall|m: Seq<char>|
                m != name@ ==> #[trigger] contains_name(final(self)@, m) == contains_name(
                    old(self)@,
                    m,
                ),
            forall|m: Seq<char>|
                m != name@ && contains_name(old(self)@, m) ==> #[trigger] lookup_name(
                    final(self)@,
                    m,
                ) == lookup_name(old(self)@, m),
    {
        let ghost prev = self@;
        if crate::lex::starts_with_str(name, "GL_") {
            return UndefOutcome::Protected;
        }
        let found = self.find(name);
        match found {
            Option::None => UndefOutcome::Absent,
            Option::Some(i) => {
                proof {
                    let k = index_of_name(prev, name@);
                    assert(0 <= k < prev.len() && def_name_m(prev[k]) == name@);
                    assert(k == i as int);
                }
                let protected = match &self.entries[i] {
                    Definition::Regular { define: d, .. } => d.protected,
                    Definition::Line => true,
                    Definition::File => true,
                    Definition::Version => true,
                };
                if protected {
                    UndefOutcome::Protected
                } else {
                    self.entries.remove(i);
                    proof {
                        assert(self@ =~= prev.remove(i as int));
                        assert forall|a: int, b: int| 0 <= a < b < self@.len() implies def_name_m(
                            #[trigger] self@[a],
                        ) != def_name_m(#[trigger] self@[b]) by {
                            let a0 = if a < i as int {
                                a
                            } else {
                                a + 1
                            };
                            let b0 = if b < i as int {
                                b
                            } else {
                                b + 1
                            };
                            assert(self@[a] == prev[a0] && self@[b] == prev[b0]);
                        }
                        assert forall|j: int| 0 <= j < self@.len() implies def_name_m(
                            #[trigger] self@[j],
                        ) != name@ by {
                            let j0 = if j < i as int {
                                j
                            } else {
                                j + 1
                            };
                            assert(self@[j] == prev[j0]);
                            assert(def_name_m(prev[j0]) != def_name_m(prev[i as int]));
                        }
                        lemma_other_names_remove(prev, i as int);
                    }
                    UndefOutcome::Removed
                }
            },
        }
    }
}

/// Pushing a new entry does not disturb what other names resolve to.
proof fn lemma_other_names_push(s: Seq<DefM>, d: DefM)
    requires
        names_unique(s),
        !contains_name(s, def_name_m(d)),
    ensures
        forall|m: Seq<char>|
            m != def_name_m(d) ==> #[trigger] contains_name(s.push(d), m) == contains_name(s, m),
        forall|m: Seq<char>|
            m != def_name_m(d) && contains_name(s, m) ==> #[trigger] lookup_name(s.push(d), m)
                == lookup_name(s, m),
{
    let t = s.push(d);
    assert forall|m: Seq<char>| m != def_name_m(d) implies #[trigger] contains_name(t, m)
        == contains_name(s, m) by {
        if contains_name(s, m) {
            let i = index_of_name(s, m);
            assert(0 <= i < s.len() && def_name_m(s[i]) == m);
            assert(t[i] == s[i]);
            assert(contains_name(t, m));
        }
        if contains_name(t, m) {
            let i = index_of_name(t, m);
            assert(0 <= i < t.len() && def_name_m(t[i]) == m);
            assert(i < s.len());
            assert(contains_name(s, m));
        }
    }
    assert forall|m: Seq<char>| m != def_name_m(d) && contains_name(s, m) implies
        #[trigger] lookup_name(t, m) == lookup_name(s, m) by {
        let i = index_of_name(s, m);
        assert(0 <= i < s.len() && def_name_m(s[i]) == m);
        assert(t[i] == s[i]);
        assert(contains_name(t, m));
        let j = index_of_name(t, m);
        assert(0 <= j < t.len() && def_name_m(t[j]) == m);
        assert(j < s.len());
        assert(t[j] == s[j]);
        if i != j {
            assert(def_name_m(s[i]) != def_name_m(s[j]));
        }
    }
}

/// Updating an entry in place does not disturb what other names resolve to.
proof fn lemma_other_names_update(s: Seq<DefM>, i: int, d: DefM)
    requires
        names_unique(s),
        0 <= i < s.len(),
        def_name_m(s[i]) == def_name_m(d),
    ensures
        forall|m: Seq<char>|
            m != def_name_m(d) ==> #[trigger] contains_name(s.update(i, d), m) == contains_name(
                s,
                m,
            ),
        forall|m: Seq<char>|
            m != def_name_m(d) && contains_name(s, m) ==> #[trigger] lookup_name(
                s.update(i, d),
                m,
            ) == lookup_name(s, m),
{
    let t = s.update(i, d);
    assert forall|m: Seq<char>| m != def_name_m(d) implies #[trigger] contains_name(t, m)
        == contains_name(s, m) by {
        if contains_name(s, m) {
            let k = index_of_name(s, m);
            assert(0 <= k < s.len() && def_name_m(s[k]) == m);
            assert(k != i);
            assert(t[k] == s[k]);
            assert(contains_name(t, m));
        }
        if contains_name(t, m) {
            let k = index_of_name(t, m);
            assert(0 <= k < t.len() && def_name_m(t[k]) == m);
            assert(k != i);
            assert(s[k] == t[k]);
            assert(contains_name(s, m));
        }
    }
    assert forall|m: Seq<char>| m != def_name_m(d) && contains_name(s, m) implies
        #[trigger] lookup_name(t, m) == lookup_name(s, m) by {
        let k = index_of_name(s, m);
        assert(0 <= k < s.len() && def_name_m(s[k]) == m);
        assert(k != i);
        assert(t[k] == s[k]);
        assert(contains_name(t, m));
        let j = index_of_name(t, m);
        assert(0 <= j < t.len() && def_name_m(t[j]) == m);
        assert(j != i);
        assert(t[j] == s[j]);
        if k != j {
            assert(def_name_m(s[k]) != def_name_m(s[j]));
        }
    }
}

/// Removing an entry does not disturb what other names resolve to.
proof fn lemma_other_names_remove(s: Seq<DefM>, i: int)
    requires
        names_unique(s),
        0 <= i < s.len(),
    ensures
        forall|m: Seq<char>|
            m != def_name_m(s[i]) ==> #[trigger] contains_name(s.remove(i), m) == contains_name(
                s,
                m,
            ),
        forall|m: Seq<char>|
            m != def_name_m(s[i]) && contains_name(s, m) ==> #[trigger] lookup_name(
                s.remove(i),
                m,
            ) == lookup_name(s, m),
{
    let t = s.remove(i);
    assert forall|m: Seq<char>| m != def_name_m(s[i]) implies #[trigger] contains_name(t, m)
        == contains_name(s, m) by {
        if contains_name(s, m) {
            let k = index_of_name(s, m);
            assert(0 <= k < s.len() && def_name_m(s[k]) == m);
            assert(k != i);
            let k2 = if k < i {
                k
            } else {
                k - 1
            };
            assert(t[k2] == s[k]);
            assert(contains_name(t, m));
        }
        if contains_name(t, m) {
            let k = index_of_name(t, m);
            assert(0 <= k < t.len() && def_name_m(t[k]) == m);
            let k0 = if k < i {
                k
            } else {
                k + 1
            };
            assert(t[k] == s[k0]);
            assert(contains_name(s, m));
        }
    }
    assert forall|m: Seq<char>| m != def_name_m(s[i]) && contains_name(s, m) implies
        #[trigger] lookup_name(t, m) == lookup_name(s, m) by {
        let k = index_of_name(s, m);
        assert(0 <= k < s.len() && def_name_m(s[k]) == m);
        assert(k != i);
        let k2 = if k < i {
            k
        } else {
            k - 1
        };
        assert(t[k2] == s[k]);
        assert(contains_name(t, m));
        let j = index_of_name(t, m);
        assert(0 <= j < t.len() && def_name_m(t[j]) == m);
        let j0 = if j < i {
            j
        } else {
            j + 1
        };
        assert(t[j] == s[j0]);
        if k != j0 {
            assert(def_name_m(s[k]) != def_name_m(s[j0]));
        }
    }
}

} // verus!
