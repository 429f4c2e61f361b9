//! The binding environment: variable scopes with deterministic, collision-free
//! renaming of rebound names.

use vstd::prelude::*;
use crate::format::{dec_spec, lemma_dec_spec_len, lemma_dec_spec_injective, format_u64};

verus! {

/// The position of the entry for `name`, or `-1` when there is none.
pub open spec fn env_index_of(s: Seq<(Seq<char>, u32)>, name: Seq<char>) -> int
    decreases s,
{
    if s.len() == 0 {
        -1
    } else if s[0].0 == name {
        0
    } else {
        let r = env_index_of(s.drop_first(), name);
        if r < 0 {
            -1
        } else {
            r + 1
        }
    }
}

/// The current generation of `name`, or `None` when it is unbound.
pub open spec fn env_lookup(s: Seq<(Seq<char>, u32)>, name: Seq<char>) -> Option<u32> {
    let i = env_index_of(s, name);
    if i >= 0 {
        Option::Some(s[i].1)
    } else {
        Option::None
    }
}

pub proof fn lemma_env_index_of_props(s: Seq<(Seq<char>, u32)>, name: Seq<char>)
    ensures
        -1 <= env_index_of(s, name) < s.len(),
        env_index_of(s, name) >= 0 ==> s[env_index_of(s, name)].0 == name,
        env_index_of(s, name) >= 0 ==> forall|j: int|
            0 <= j < env_index_of(s, name) ==> s[j].0 != name,
        env_index_of(s, name) < 0 ==> forall|j: int| 0 <= j < s.len() ==> s[j].0 != name,
    decreases s,
{
    if s.len() > 0 && s[0].0 != name {
        lemma_env_index_of_props(s.drop_first(), name);
        assert(forall|j: int| 1 <= j < s.len() ==> s[j] == s.drop_first()[j - 1]);
    }
}

/// The environment after `name` is (re)bound: a fresh name enters at
/// generation zero, a bound one moves to the next generation.
pub open spec fn env_bind_spec(s: Seq<(Seq<char>, u32)>, name: Seq<char>) -> Seq<
    (Seq<char>, u32),
> {
    let i = env_index_of(s, name);
    if i >= 0 {
        s.update(i, (name, (s[i].1 + 1) as u32))
    } else {
        s.push((name, 0))
    }
}

/// The generation `bind` hands back for that rebinding.
pub open spec fn env_bind_generation(s: Seq<(Seq<char>, u32)>, name: Seq<char>) -> u32 {
    match env_lookup(s, name) {
        Option::Some(v) => (v + 1) as u32,
        Option::None => 0,
    }
}

/// The target-safe identifier for a name at a generation: the name itself for
/// generation zero, the name with a numeric tag for every later generation.
pub open spec fn rename_spec(name: Seq<char>, generation: nat) -> Seq<char> {
    if generation == 0 {
        name
    } else {
        name + "$"@ + dec_spec(generation)
    }
}

/// Tracks, per source-level variable name, the generation its most recent
/// binding carries.
#[derive(Debug)]
pub struct BindingEnvironment {
    entries: Vec<(String, u32)>,
}

impl BindingEnvironment {
    pub closed spec fn view(self) -> Seq<(Seq<char>, u32)> {
        self.entries@.map_values(|e: (String, u32)| (e.0@, e.1))
    }

    /// Well-formed: one entry per name.
    pub open spec fn wf(self) -> bool {
        forall|i: int, j: int|
            0 <= i < j < self.view().len() ==> self.view()[i].0 != self.view()[j].0
    }

    /// An environment with nothing bound.
    pub fn new() -> (r: Self)
        ensures
            r@ =~= Seq::<(Seq<char>, u32)>::empty(),
            r.wf(),
    {
        BindingEnvironment { entries: Vec::new() }
    }

    fn find(&self, name: &String) -> (r: Option<usize>)
        ensures
            match r {
                Option::Some(i) => env_index_of(self@, name@) == i as int && i < self.entries.len(),
                Option::None => env_index_of(self@, name@) == -1,
            },
    {
        proof {
            lemma_env_index_of_props(self@, name@);
        }
        let n = self.entries.len();
        let mut i: usize = 0;
        while i < n
            invariant
                n == self.entries.len(),
                i <= n,
                forall|j: int| 0 <= j < i ==> self@[j].0 != name@,
            decreases n - i,
        {
            if self.entries[i].0.eq(name) {
                proof {
                    lemma_env_index_of_props(self@, name@);
                    assert(self@[i as int].0 == name@);
                }
                return Option::Some(i);
            }
            i += 1;
        }
        proof {
            lemma_env_index_of_props(self@, name@);
        }
        Option::None
    }

    /// The current generation of `name`, or `None` when it is unbound.
    pub fn resolve(&self, name: &String) -> (r: Option<u32>)
        ensures
            r == env_lookup(self@, name@),
    {
        match self.find(name) {
            Option::Some(i) => Option::Some(self.entries[i].1),
            Option::None => Option::None,
        }
    }

    /// Binds `name`, giving it a fresh generation that every later unqualified
    /// reference resolves to, and returns that generation.
    pub fn bind(&mut self, name: &String) -> (g: u32)
        requires
            old(self).wf(),
            match env_lookup(old(self)@, name@) {
                Option::Some(v) => v < u32::MAX,
                Option::None => true,
            },
        ensures
            final(self)@ == env_bind_spec(old(self)@, name@),
            final(self).wf(),
            g == env_bind_generation(old(self)@, name@),
            env_lookup(final(self)@, name@) == Option::Some(g),
            forall|other: Seq<char>| other != name@ ==>
                env_lookup(final(self)@, other) == env_lookup(old(self)@, other),
    {
        proof {
            lemma_env_index_of_props(old(self)@, name@);
        }
        let ghost pre = self@;
        match self.find(name) {
            Option::Some(i) => {
                let v = self.entries[i].1;
                let nm = self.entries[i].0.clone();
                self.entries.set(i, (nm, v + 1));
                proof {
                    assert(self@ =~= env_bind_spec(pre, name@));
                    lemma_env_bind_frame(pre, name@);
                }
                v + 1
            },
            Option::None => {
                self.entries.push((name.clone(), 0));
                proof {
                    assert(self@ =~= env_bind_spec(pre, name@));
                    lemma_env_bind_frame(pre, name@);
                }
                0
            },
        }
    }

    /// A copy to enter a nested scope with; the original stands for the scope
    /// around it.
    pub fn snapshot(&self) -> (r: Self)
        ensures
            r@ == self@,
            r.wf() == self.wf(),
    {
        let n = self.entries.len();
        let mut out: Vec<(String, u32)> = Vec::new();
        let mut i: usize = 0;
        while i < n
            invariant
                n == self.entries.len(),
                i <= n,
                out@.len() == i,
                forall|j: int| 0 <= j < i ==> out@[j] == self.entries@[j],
            decreases n - i,
        {
            let nm = self.entries[i].0.clone();
            let g = self.entries[i].1;
            proof {
                assert(nm == self.entries@[i as int].0);
            }
            out.push((nm, g));
            i += 1;
        }
        let r = BindingEnvironment { entries: out };
        proof {
            assert(r@ =~= self@);
        }
        r
    }

    /// The identifier the emitted code uses for `name` at `generation`.
    pub fn rename(&self, name: &String, generation: u32) -> (r: String)
        ensures
            r@ == rename_spec(name@, generation as nat),
    {
        rename_identifier(name, generation)
    }
}

/// The identifier the emitted code uses for `name` at `generation`, as
/// `rename_spec` states.
pub fn rename_identifier(name: &String, generation: u32) -> (r: String)
    ensures
        r@ == rename_spec(name@, generation as nat),
{
    if generation == 0 {
        let r = name.clone();
        r
    } else {
        let mut r = name.clone();
        r.append("$");
        let tag = format_u64(generation as u64);
        r.append(tag.as_str());
        assert(r@ =~= rename_spec(name@, generation as nat));
        r
    }
}

/// Binding one name leaves every other name's resolution unchanged, and the
/// bound name resolves to the fresh generation.
pub proof fn lemma_env_bind_frame(s: Seq<(Seq<char>, u32)>, name: Seq<char>)
    requires
        forall|i: int, j: int| 0 <= i < j < s.len() ==> s[i].0 != s[j].0,
    ensures
        env_lookup(env_bind_spec(s, name), name) == Option::Some(env_bind_generation(s, name)),
        forall|other: Seq<char>| other != name ==>
            env_lookup(env_bind_spec(s, name), other) == env_lookup(s, other),
        forall|i: int, j: int|
            0 <= i < j < env_bind_spec(s, name).len() ==> env_bind_spec(s, name)[i].0
                != env_bind_spec(s, name)[j].0,
{
    lemma_env_index_of_props(s, name);
    let t = env_bind_spec(s, name);
    assert forall|other: Seq<char>| true implies env_index_of(t, other) == (
    if env_index_of(s, name) < 0 && other == name {
        s.len() as int
    } else {
        env_index_of(s, other)
    }) by {
        lemma_env_index_of_same_keys(s, t, other, name);
    }
    lemma_env_index_of_props(t, name);
    assert(env_lookup(t, name) == Option::Some(env_bind_generation(s, name)));
    assert forall|other: Seq<char>| other != name implies env_lookup(t, other) == env_lookup(
        s,
        other,
    ) by {
        let io = env_index_of(s, other);
        lemma_env_index_of_props(s, other);
        if io >= 0 {
            assert(s[io].0 == other);
            let iname = env_index_of(s, name);
            if iname >= 0 {
                assert(s[iname].0 == name);
                assert(io != iname);
                assert(t[io] == s[io]);
            } else {
                assert(t[io] == s[io]);
            }
        }
    }
    assert forall|i: int, j: int| 0 <= i < j < t.len() implies t[i].0 != t[j].0 by {
        if env_index_of(s, name) < 0 {
            if j == s.len() as int {
                lemma_env_index_of_props(s, name);
                assert(s[i].0 != name);
            }
        }
    }
}

/// Helper: after a bind, the position of any name is unchanged, except that a
/// freshly appended name sits at the end.
proof fn lemma_env_index_of_same_keys(
    s: Seq<(Seq<char>, u32)>,
    t: Seq<(Seq<char>, u32)>,
    other: Seq<char>,
    name: Seq<char>,
)
    requires
        t == env_bind_spec(s, name),
    ensures
        env_index_of(t, other) == (if env_index_of(s, name) < 0 && other == name {
            s.len() as int
        } else {
            env_index_of(s, other)
        }),
    decreases s,
{
    lemma_env_index_of_props(s, name);
    if s.len() == 0 {
        assert(t =~= seq![(name, 0u32)]);
        if other == name {
            assert(env_index_of(t, other) == 0);
        } else {
            assert(t[0].0 == name);
            assert(t.drop_first().len() == 0);
            assert(env_index_of(t.drop_first(), other) == -1);
            assert(env_index_of(t, other) == -1);
            assert(env_index_of(s, other) == -1);
        }
    } else {
        let i = env_index_of(s, name);
        if i == 0 {
            assert(t =~= s.update(0, (name, (s[0].1 + 1) as u32)));
            assert(t[0].0 == name && s[0].0 == name);
            assert(t.drop_first() =~= s.drop_first());
        } else {
            assert(s[0].0 != name);
            if i > 0 {
                assert(t =~= s.update(i, (name, (s[i].1 + 1) as u32)));
                assert(t[0] == s[0]);
                assert(t.drop_first() =~= env_bind_spec(s.drop_first(), name)) by {
                    assert(env_index_of(s.drop_first(), name) == i - 1);
                    assert(s.update(i, (name, (s[i].1 + 1) as u32)).drop_first() =~= s
                        .drop_first()
                        .update(i - 1, (name, (s.drop_first()[i - 1].1 + 1) as u32)));
                }
            } else {
                assert(t =~= s.push((name, 0u32)));
                assert(t[0] == s[0]);
                assert(t.drop_first() =~= env_bind_spec(s.drop_first(), name)) by {
                    assert(env_index_of(s.drop_first(), name) == -1);
                    assert(s.push((name, 0u32)).drop_first() =~= s.drop_first().push(
                        (name, 0u32),
                    ));
                }
            }
            lemma_env_index_of_same_keys(s.drop_first(), t.drop_first(), other, name);
        }
    }
}

/// Distinct generations of one name always render as distinct identifiers, so
/// the emitted code never collides two rebindings of the same source name.
pub proof fn lemma_distinct_generations_distinct_identifiers(
    name: Seq<char>,
    g1: nat,
    g2: nat,
)
    requires
        g1 != g2,
    ensures
        rename_spec(name, g1) != rename_spec(name, g2),
{
    reveal_strlit("$");
    if g1 == 0 {
        lemma_dec_spec_len(g2);
        assert(rename_spec(name, g2).len() > name.len());
    } else if g2 == 0 {
        lemma_dec_spec_len(g1);
        assert(rename_spec(name, g1).len() > name.len());
    } else {
        let s1 = rename_spec(name, g1);
        let s2 = rename_spec(name, g2);
        lemma_dec_spec_injective(g1, g2);
        if s1 == s2 {
            assert(s1.len() == s2.len());
            assert(dec_spec(g1).len() == dec_spec(g2).len());
            assert(dec_spec(g1) =~= dec_spec(g2)) by {
                assert forall|k: int| 0 <= k < dec_spec(g1).len() implies dec_spec(g1)[k]
                    == dec_spec(g2)[k] by {
                    assert(s1[name.len() + 1 + k] == dec_spec(g1)[k]);
                    assert(s2[name.len() + 1 + k] == dec_spec(g2)[k]);
                }
            }
            assert(false);
        }
    }
}


/// A source-level name: the tag separator never occurs in one, which is what
/// keeps the renaming injective across names as well as generations.
pub open spec fn tag_free(name: Seq<char>) -> bool {
    forall|k: int| 0 <= k < name.len() ==> name[k] != '$'
}

/// Name-and-generation pairs are globally unique in the emitted code: two
/// distinct pairs of a source name and a generation always render as
/// distinct identifiers, so no binding in one output scope can capture
/// another.
pub proof fn lemma_identifiers_globally_unique(n1: Seq<char>, g1: nat, n2: Seq<char>, g2: nat)
    requires
        tag_free(n1),
        tag_free(n2),
        n1 != n2 || g1 != g2,
    ensures
        rename_spec(n1, g1) != rename_spec(n2, g2),
{
    reveal_strlit("$");
    if n1 == n2 {
        lemma_distinct_generations_distinct_identifiers(n1, g1, g2);
    } else {
        let r1 = rename_spec(n1, g1);
        let r2 = rename_spec(n2, g2);
        lemma_dec_spec_len(g1);
        lemma_dec_spec_len(g2);
        if g1 == 0 && g2 == 0 {
            assert(r1 != r2);
        } else if g1 == 0 {
            if r1 == r2 {
                assert(r1.len() == n2.len() + 1 + dec_spec(g2).len());
                assert(r2[n2.len() as int] == '$');
                assert(n1[n2.len() as int] != '$');
                assert(false);
            }
        } else if g2 == 0 {
            if r1 == r2 {
                assert(r2.len() == n1.len() + 1 + dec_spec(g1).len());
                assert(r1[n1.len() as int] == '$');
                assert(n2[n1.len() as int] != '$');
                assert(false);
            }
        } else {
            if r1 == r2 {
                assert(r1[n1.len() as int] == '$');
                assert(r2[n2.len() as int] == '$');
                if n1.len() < n2.len() {
                    assert(r2[n1.len() as int] == n2[n1.len() as int]);
                    assert(n2[n1.len() as int] != '$');
                    assert(false);
                } else if n2.len() < n1.len() {
                    assert(r1[n2.len() as int] == n1[n2.len() as int]);
                    assert(n1[n2.len() as int] != '$');
                    assert(false);
                } else {
                    assert(n1 =~= n2) by {
                        assert forall|k: int| 0 <= k < n1.len() implies n1[k] == n2[k] by {
                            assert(r1[k] == n1[k]);
                            assert(r2[k] == n2[k]);
                        }
                    }
                    assert(false);
                }
            }
        }
    }
}

} // verus!
