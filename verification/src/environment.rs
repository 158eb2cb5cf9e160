//! Lexically scoped variables: one scope frame, and the chain of frames.
//!
//! A `Variables` is one frame: a mapping from names to values, seen in
//! contracts as a `Map<Seq<char>, LitV>`. An `Environment` is the chain of
//! frames the interpreter runs against, innermost frame last, seen as a
//! `Seq` of such maps with the innermost map last. Declaration always
//! targets the innermost frame; lookup and assignment search innermost
//! first and walk outward.

use vstd::prelude::*;

verus! {

use crate::ast::{LitV, Litteral, lit_wf};

/// One scope frame: a mapping from variable names to values.
pub struct Variables {
    entries: Vec<(String, Litteral)>,
}

/// The map a list of bindings stands for; a later binding for the same
/// name wins.
pub open spec fn frame_map(s: Seq<(String, Litteral)>) -> Map<Seq<char>, LitV>
    decreases s.len(),
{
    if s.len() == 0 {
        Map::empty()
    } else {
        frame_map(s.drop_last()).insert(s.last().0@, s.last().1@)
    }
}

/// No two bindings share a name.
pub open spec fn keys_unique(s: Seq<(String, Litteral)>) -> bool {
    forall|i: int, j: int| 0 <= i < j < s.len() ==> s[i].0@ != s[j].0@
}

/// Every bound value is well formed.
pub open spec fn entries_wf(s: Seq<(String, Litteral)>) -> bool {
    forall|i: int| 0 <= i < s.len() ==> lit_wf(#[trigger] s[i].1@)
}

/// A name is in the map exactly when some binding carries it.
pub proof fn lemma_frame_contains(s: Seq<(String, Litteral)>, k: Seq<char>)
    ensures
        frame_map(s).contains_key(k) <==> exists|i: int| 0 <= i < s.len() && s[i].0@ == k,
    decreases s.len(),
{
    if s.len() > 0 {
        lemma_frame_contains(s.drop_last(), k);
        if s.last().0@ == k {
            assert(s[s.len() - 1].0@ == k);
        } else {
            if exists|i: int| 0 <= i < s.len() - 1 && s.drop_last()[i].0@ == k {
                let i = choose|i: int| 0 <= i < s.len() - 1 && s.drop_last()[i].0@ == k;
                assert(s[i].0@ == k);
            }
            if exists|i: int| 0 <= i < s.len() && s[i].0@ == k {
                let i = choose|i: int| 0 <= i < s.len() && s[i].0@ == k;
                assert(s.drop_last()[i].0@ == k);
            }
        }
    }
}

/// With unique names, the binding at `i` gives the map's value for its
/// name.
pub proof fn lemma_frame_value(s: Seq<(String, Litteral)>, i: int)
    requires
        keys_unique(s),
        0 <= i < s.len(),
    ensures
        frame_map(s).contains_key(s[i].0@),
        frame_map(s)[s[i].0@] == s[i].1@,
    decreases s.len(),
{
    if i == s.len() - 1 {
    } else {
        assert(s.drop_last()[i] == s[i]);
        lemma_frame_value(s.drop_last(), i);
        assert(s[s.len() - 1].0@ != s[i].0@);
    }
}

/// With unique names, overwriting the binding at `i` with a binding for
/// the same name inserts into the map.
pub proof fn lemma_frame_update(s: Seq<(String, Litteral)>, i: int, n: String, v: Litteral)
    requires
        keys_unique(s),
        0 <= i < s.len(),
        n@ == s[i].0@,
    ensures
        frame_map(s.update(i, (n, v))) =~= frame_map(s).insert(n@, v@),
        keys_unique(s.update(i, (n, v))),
        entries_wf(s) && lit_wf(v@) ==> entries_wf(s.update(i, (n, v))),
    decreases s.len(),
{
    let t = s.update(i, (n, v));
    assert forall|a: int, b: int| 0 <= a < b < t.len() implies t[a].0@ != t[b].0@ by {
        assert(s[a].0@ != s[b].0@);
    }
    if i == s.len() - 1 {
        assert(t.drop_last() =~= s.drop_last());
        assert(t.last() == (n, v));
    } else {
        assert(t.drop_last() =~= s.drop_last().update(i, (n, v)));
        assert(s.drop_last()[i] == s[i]);
        lemma_frame_update(s.drop_last(), i, n, v);
        assert(t.last() == s.last());
        assert(s[s.len() - 1].0@ != s[i].0@);
    }
}

/// Every value of a map built from well-formed bindings is well formed.
pub proof fn lemma_frame_wf(s: Seq<(String, Litteral)>, k: Seq<char>)
    requires
        entries_wf(s),
        frame_map(s).contains_key(k),
    ensures
        lit_wf(frame_map(s)[k]),
    decreases s.len(),
{
    if s.len() > 0 {
        if s.last().0@ == k {
            assert(lit_wf(s[s.len() - 1].1@));
        } else {
            lemma_frame_wf(s.drop_last(), k);
        }
    }
}

impl View for Variables {
    type V = Map<Seq<char>, LitV>;

    closed spec fn view(&self) -> Map<Seq<char>, LitV> {
        frame_map(self.entries@)
    }
}

impl Variables {
    /// Names are unique and stored values well formed.
    pub closed spec fn inv(&self) -> bool {
        keys_unique(self.entries@) && entries_wf(self.entries@)
    }

    /// Every value of a well-formed frame is well formed.
    pub proof fn lemma_values_wf(&self, k: Seq<char>)
        requires
            self.inv(),
            self@.contains_key(k),
        ensures
            lit_wf(self@[k]),
    {
        lemma_frame_wf(self.entries@, k);
    }

    /// An empty frame.
    pub fn new() -> (r: Variables)
        ensures
            r.inv(),
            r@ =~= Map::<Seq<char>, LitV>::empty(),
    {
        Variables { entries: Vec::new() }
    }

    /// The index of the binding for `ident`, if there is one.
    fn find(&self, ident: &String) -> (r: Option<usize>)
        ensures
            match r {
                Some(i) => i < self.entries@.len() && self.entries@[i as int].0@ == ident@,
                None => forall|i: int|
                    0 <= i < self.entries@.len() ==> #[trigger] self.entries@[i].0@ != ident@,
            },
    {
        let mut i: usize = 0;
        while i < self.entries.len()
            invariant
                i <= self.entries@.len(),
                forall|j: int| 0 <= j < i ==> #[trigger] self.entries@[j].0@ != ident@,
            decreases self.entries@.len() - i,
        {
            if self.entries[i].0.eq(ident) {
                return Some(i);
            }
            i = i + 1;
        }
        None
    }

    /// The value bound to `ident` in this frame, if any.
    pub fn get(&self, ident: &String) -> (r: Option<Litteral>)
        requires
            self.inv(),
        ensures
            match r {
                Some(v) => self@.contains_key(ident@) && v@ == self@[ident@],
                None => !self@.contains_key(ident@),
            },
    {
        proof {
            lemma_frame_contains(self.entries@, ident@);
        }
        match self.find(ident) {
            Some(i) => {
                proof {
                    lemma_frame_value(self.entries@, i as int);
                }
                Some(self.entries[i].1.duplicate())
            },
            None => None,
        }
    }

    /// Whether this frame binds `name`.
    pub fn contains_var(&self, name: &String) -> (r: bool)
        ensures
            r == self@.contains_key(name@),
    {
        proof {
            lemma_frame_contains(self.entries@, name@);
        }
        match self.find(name) {
            Some(_) => true,
            None => false,
        }
    }

    /// Overwrites the binding for `ident` if this frame has one; reports
    /// whether it did. Never creates a binding.
    pub fn assign(&mut self, ident: &String, value: Litteral) -> (r: bool)
        requires
            old(self).inv(),
            lit_wf(value@),
        ensures
            final(self).inv(),
            r == old(self)@.contains_key(ident@),
            r ==> final(self)@ =~= old(self)@.insert(ident@, value@),
            !r ==> final(self)@ == old(self)@,
    {
        proof {
            lemma_frame_contains(self.entries@, ident@);
        }
        match self.find(ident) {
            Some(i) => {
                let name = self.entries[i].0.clone();
                proof {
                    lemma_frame_update(self.entries@, i as int, name, value);
                }
                self.entries[i] = (name, value);
                true
            },
            None => false,
        }
    }

    /// Binds `ident` in this frame, overwriting any previous binding.
    pub fn define(&mut self, ident: String, value: Litteral) -> (r: ())
        requires
            old(self).inv(),
            lit_wf(value@),
        ensures
            final(self).inv(),
            final(self)@ =~= old(self)@.insert(ident@, value@),
    {
        proof {
            lemma_frame_contains(self.entries@, ident@);
        }
        match self.find(&ident) {
            Some(i) => {
                proof {
                    lemma_frame_update(self.entries@, i as int, ident, value);
                }
                self.entries[i] = (ident, value);
            },
            None => {
                let ghost pre = self.entries@;
                self.entries.push((ident, value));
                proof {
                    assert(self.entries@.drop_last() =~= pre);
                }
            },
        }
    }
}

/// The value `name` has in the chain, innermost frame (the sequence's
/// last) first.
pub open spec fn env_get(e: Seq<Map<Seq<char>, LitV>>, k: Seq<char>) -> Option<LitV>
    decreases e.len(),
{
    if e.len() == 0 {
        None
    } else if e.last().contains_key(k) {
        Some(e.last()[k])
    } else {
        env_get(e.drop_last(), k)
    }
}

/// The chain after assigning to `name`: the innermost frame that already
/// binds it is overwritten; `None` when no frame binds it.
pub open spec fn env_assign(
    e: Seq<Map<Seq<char>, LitV>>,
    k: Seq<char>,
    v: LitV,
) -> Option<Seq<Map<Seq<char>, LitV>>>
    decreases e.len(),
{
    if e.len() == 0 {
        None
    } else if e.last().contains_key(k) {
        Some(e.update(e.len() - 1, e.last().insert(k, v)))
    } else {
        match env_assign(e.drop_last(), k, v) {
            Some(t) => Some(t.push(e.last())),
            None => None,
        }
    }
}

/// The chain after declaring `name` in the innermost frame.
pub open spec fn env_define(
    e: Seq<Map<Seq<char>, LitV>>,
    k: Seq<char>,
    v: LitV,
) -> Seq<Map<Seq<char>, LitV>>
    recommends
        e.len() >= 1,
{
    e.update(e.len() - 1, e.last().insert(k, v))
}

/// Every value reachable in the chain is well formed.
pub open spec fn env_vals_wf(e: Seq<Map<Seq<char>, LitV>>) -> bool {
    forall|i: int, k: Seq<char>|
        0 <= i < e.len() && #[trigger] e[i].contains_key(k) ==> lit_wf(e[i][k])
}

/// The chain of scope frames the interpreter runs against.
pub struct Environment {
    frames: Vec<Variables>,
}

impl View for Environment {
    type V = Seq<Map<Seq<char>, LitV>>;

    closed spec fn view(&self) -> Seq<Map<Seq<char>, LitV>> {
        self.frames@.map_values(|f: Variables| f@)
    }
}

impl Environment {
    /// There is always at least one frame, and every frame is well formed.
    pub closed spec fn inv(&self) -> bool {
        self.frames@.len() >= 1 && forall|i: int|
            0 <= i < self.frames@.len() ==> (#[trigger] self.frames@[i]).inv()
    }

    pub proof fn lemma_inv_len(&self)
        requires
            self.inv(),
        ensures
            self@.len() >= 1,
            env_vals_wf(self@),
    {
        assert forall|i: int, k: Seq<char>|
            0 <= i < self@.len() && #[trigger] self@[i].contains_key(k) implies lit_wf(
            self@[i][k],
        ) by {
            self.frames@[i].lemma_values_wf(k);
        }
    }

    /// A chain of one empty global frame.
    pub fn new() -> (r: Environment)
        ensures
            r.inv(),
            r@ =~= seq![Map::<Seq<char>, LitV>::empty()],
    {
        let mut frames: Vec<Variables> = Vec::new();
        frames.push(Variables::new());
        Environment { frames }
    }

    /// Opens a nested scope: a fresh empty innermost frame over the whole
    /// current chain.
    pub fn enter_block(&mut self)
        requires
            old(self).inv(),
        ensures
            final(self).inv(),
            final(self)@ =~= old(self)@.push(Map::<Seq<char>, LitV>::empty()),
    {
        self.frames.push(Variables::new());
    }

    /// Closes the innermost scope, discarding its bindings.
    pub fn exit_block(&mut self)
        requires
            old(self).inv(),
            old(self)@.len() >= 2,
        ensures
            final(self).inv(),
            final(self)@ =~= old(self)@.drop_last(),
    {
        let _ = self.frames.pop();
    }

    /// Declares `ident` in the innermost frame, shadowing any outer
    /// binding of the same name.
    pub fn define(&mut self, ident: String, value: Litteral)
        requires
            old(self).inv(),
            lit_wf(value@),
        ensures
            final(self).inv(),
            final(self)@ =~= env_define(old(self)@, ident@, value@),
    {
        let last = self.frames.len() - 1;
        let f = &mut self.frames[last];
        f.define(ident, value);
    }

    /// The value of `ident`, searching innermost to outermost.
    pub fn get(&self, ident: &String) -> (r: Option<Litteral>)
        requires
            self.inv(),
        ensures
            match r {
                Some(v) => env_get(self@, ident@) == Some(v@),
                None => env_get(self@, ident@) is None,
            },
    {
        let mut i: usize = self.frames.len();
        proof {
            assert(self@.take(self.frames@.len() as int) =~= self@);
        }
        while i > 0
            invariant
                self.inv(),
                i <= self.frames@.len(),
                env_get(self@, ident@) == env_get(self@.take(i as int), ident@),
            decreases i,
        {
            proof {
                assert(self@.take(i as int).last() == self@[i - 1]);
                assert(self@.take(i as int).drop_last() =~= self@.take(i - 1));
            }
            match self.frames[i - 1].get(ident) {
                Some(v) => {
                    return Some(v);
                },
                None => {
                    i = i - 1;
                },
            }
        }
        proof {
            assert(self@.take(0) =~= Seq::<Map<Seq<char>, LitV>>::empty());
        }
        None
    }

    /// Assigns to `ident` in the innermost frame that already binds it;
    /// reports whether any frame did. Never creates a binding.
    pub fn assign(&mut self, ident: &String, value: Litteral) -> (r: bool)
        requires
            old(self).inv(),
            lit_wf(value@),
        ensures
            final(self).inv(),
            match env_assign(old(self)@, ident@, value@) {
                Some(t) => r == true && final(self)@ =~= t,
                None => r == false && final(self)@ == old(self)@,
            },
    {
        let mut i: usize = self.frames.len();
        while i > 0
            invariant
                self.inv(),
                lit_wf(value@),
                i <= self.frames@.len(),
                self@ == old(self)@,
                forall|j: int| i <= j < self@.len() ==> !(#[trigger] self@[j]).contains_key(ident@),
            decreases i,
    {
            if self.frames[i - 1].contains_var(ident) {
                let ghost pre = self@;
                let f = &mut self.frames[i - 1];
                let _ = f.assign(ident, value);
                proof {
                    assert(self@ =~= pre.update(i - 1, pre[i - 1].insert(ident@, value@)));
                    lemma_env_assign_at(pre, ident@, value@, i - 1);
                }
                return true;
            }
            i = i - 1;
        }
        proof {
            lemma_env_assign_none(self@, ident@, value@);
        }
        false
    }
}

/// When the innermost frame binding `k` is at `j`, assignment overwrites
/// exactly there.
pub proof fn lemma_env_assign_at(e: Seq<Map<Seq<char>, LitV>>, k: Seq<char>, v: LitV, j: int)
    requires
        0 <= j < e.len(),
        e[j].contains_key(k),
        forall|i: int| j < i < e.len() ==> !(#[trigger] e[i]).contains_key(k),
    ensures
        env_assign(e, k, v) == Some(e.update(j, e[j].insert(k, v))),
    decreases e.len(),
{
    if j == e.len() - 1 {
        assert(e.last().contains_key(k));
    } else {
        assert(!e.last().contains_key(k));
        assert(forall|i: int|
            j < i < e.drop_last().len() ==> !(#[trigger] e.drop_last()[i]).contains_key(k));
        assert(e.drop_last()[j] == e[j]);
        lemma_env_assign_at(e.drop_last(), k, v, j);
        assert(e.drop_last().update(j, e[j].insert(k, v)).push(e.last()) =~= e.update(
            j,
            e[j].insert(k, v),
        ));
    }
}

/// When no frame binds `k`, assignment fails.
pub proof fn lemma_env_assign_none(e: Seq<Map<Seq<char>, LitV>>, k: Seq<char>, v: LitV)
    requires
        forall|i: int| 0 <= i < e.len() ==> !(#[trigger] e[i]).contains_key(k),
    ensures
        env_assign(e, k, v) is None,
    decreases e.len(),
{
    if e.len() > 0 {
        lemma_env_assign_none(e.drop_last(), k, v);
    }
}

} // verus!
