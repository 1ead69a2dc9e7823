//! The dispatch engine: a registry of conversion rules keyed by role and by
//! the tags of their input and output types, and the application of rules.
use vstd::prelude::*;

verus! {

/// Identifies a rule: the role it belongs to and the tags of the types it
/// converts from and to.
#[derive(Debug)]
pub struct RuleKey {
    pub role: String,
    pub input: String,
    pub output: String,
}

/// What a key stands for: its three tags.
pub open spec fn key_view(k: RuleKey) -> (Seq<char>, Seq<char>, Seq<char>) {
    (k.role@, k.input@, k.output@)
}

/// A configuration error of a rule set.
#[derive(Debug)]
pub enum DispatchError {
    /// A rule was given for a triple that already has one.
    Duplicate(RuleKey),
    /// No rule was given for a triple that is needed.
    Missing(RuleKey),
}

impl RuleKey {
    pub fn new(role: &str, input: &str, output: &str) -> (r: RuleKey)
        ensures
            key_view(r) == (role@, input@, output@),
    {
        RuleKey { role: role.to_owned(), input: input.to_owned(), output: output.to_owned() }
    }

    /// A key with the same tags.
    pub fn copy(&self) -> (r: RuleKey)
        ensures
            key_view(r) == key_view(*self),
    {
        RuleKey { role: self.role.clone(), input: self.input.clone(), output: self.output.clone() }
    }

    /// Whether two keys name the same triple.
    pub fn same(&self, other: &RuleKey) -> (r: bool)
        ensures
            r == (key_view(*self) == key_view(*other)),
    {
        self.role == other.role && self.input == other.input && self.output == other.output
    }
}

/// The views of a sequence of keys.
pub open spec fn keys_view(ks: Seq<RuleKey>) -> Seq<(Seq<char>, Seq<char>, Seq<char>)> {
    ks.map_values(|k: RuleKey| key_view(k))
}

/// A registry of rule keys, at most one per triple, in registration order,
/// with the triples for which a second rule was given. Such a triple is in
/// conflict: no rule of it can be resolved or applied, neither the first nor
/// the last given.
pub struct RuleSet {
    keys: Vec<RuleKey>,
    conflicts: Vec<RuleKey>,
}

impl View for RuleSet {
    type V = Seq<(Seq<char>, Seq<char>, Seq<char>)>;

    closed spec fn view(&self) -> Self::V {
        keys_view(self.keys@)
    }
}

impl RuleSet {
    /// The triples for which more than one rule was given, in the order found.
    pub closed spec fn conflicted(&self) -> Seq<(Seq<char>, Seq<char>, Seq<char>)> {
        keys_view(self.conflicts@)
    }

    /// Whether the triple `k` has exactly one rule, so that it can be resolved and applied.
    pub open spec fn usable(&self, k: (Seq<char>, Seq<char>, Seq<char>)) -> bool {
        self@.contains(k) && !self.conflicted().contains(k)
    }

    #[verifier::type_invariant]
    spec fn unique(&self) -> bool {
        keys_view(self.keys@).no_duplicates()
    }

    /// An empty rule set.
    pub fn new() -> (r: RuleSet)
        ensures
            r@ == Seq::<(Seq<char>, Seq<char>, Seq<char>)>::empty(),
            r.conflicted() == Seq::<(Seq<char>, Seq<char>, Seq<char>)>::empty(),
    {
        let r = RuleSet { keys: Vec::new(), conflicts: Vec::new() };
        assert(r@ =~= Seq::<(Seq<char>, Seq<char>, Seq<char>)>::empty());
        assert(r.conflicted() =~= Seq::<(Seq<char>, Seq<char>, Seq<char>)>::empty());
        r
    }

    /// Where `key`'s triple stands in the set, if it does.
    pub fn find(&self, key: &RuleKey) -> (r: Option<usize>)
        ensures
            r matches Some(i) ==> i < self@.len() && self@[i as int] == key_view(*key),
            r is None <==> !self@.contains(key_view(*key)),
    {
        let mut i: usize = 0;
        while i < self.keys.len()
            invariant
                i <= self.keys.len(),
                self@ == keys_view(self.keys@),
                forall|j: int| 0 <= j < i ==> self@[j] != key_view(*key),
            decreases self.keys.len() - i,
        {
            if self.keys[i].same(key) {
                assert(self@[i as int] == key_view(*key));
                return Some(i);
            }
            i = i + 1;
        }
        proof {
            if self@.contains(key_view(*key)) {
                let j = choose|j: int| 0 <= j < self@.len() && self@[j] == key_view(*key);
                assert(self@[j] != key_view(*key));
            }
        }
        None
    }

    /// Whether a second rule was given for `key`'s triple.
    pub fn in_conflict(&self, key: &RuleKey) -> (r: bool)
        ensures
            r == self.conflicted().contains(key_view(*key)),
    {
        let mut i: usize = 0;
        while i < self.conflicts.len()
            invariant
                i <= self.conflicts.len(),
                self.conflicted() == keys_view(self.conflicts@),
                forall|j: int| 0 <= j < i ==> self.conflicted()[j] != key_view(*key),
            decreases self.conflicts.len() - i,
        {
            if self.conflicts[i].same(key) {
                assert(self.conflicted()[i as int] == key_view(*key));
                return true;
            }
            i = i + 1;
        }
        proof {
            if self.conflicted().contains(key_view(*key)) {
                let j = choose|j: int|
                    0 <= j < self.conflicted().len() && self.conflicted()[j] == key_view(*key);
                assert(self.conflicted()[j] != key_view(*key));
            }
        }
        false
    }

    /// Resolves a triple to the position of its rule. A triple with no rule,
    /// or with more than one, is a configuration error.
    pub fn resolve(&self, key: &RuleKey) -> (r: Result<usize, DispatchError>)
        ensures
            r matches Ok(i) ==> i < self@.len() && self@[i as int] == key_view(*key),
            r is Ok <==> self.usable(key_view(*key)),
            r matches Err(e) ==> (e is Missing && key_view(e->Missing_0) == key_view(*key)
                && !self@.contains(key_view(*key))) || (e is Duplicate && key_view(e->Duplicate_0)
                == key_view(*key) && self.conflicted().contains(key_view(*key))),
    {
        match self.find(key) {
            Some(i) => {
                if self.in_conflict(key) {
                    Err(DispatchError::Duplicate(key.copy()))
                } else {
                    Ok(i)
                }
            },
            None => Err(DispatchError::Missing(key.copy())),
        }
    }

    /// Registers a triple. A second rule for a triple that already has one is
    /// refused, and the triple is put in conflict: from then on neither rule
    /// can be resolved.
    pub fn register(&mut self, key: RuleKey) -> (r: Result<(), DispatchError>)
        ensures
            r is Ok <==> !old(self)@.contains(key_view(key)),
            r is Ok ==> final(self)@ == old(self)@.push(key_view(key)) && final(self).conflicted()
                == old(self).conflicted(),
            r matches Err(e) ==> final(self)@ == old(self)@ && final(self).conflicted() == old(
                self,
            ).conflicted().push(key_view(key)) && e is Duplicate && key_view(e->Duplicate_0)
                == key_view(key),
            r is Err ==> !final(self).usable(key_view(key)),
    {
        match self.find(&key) {
            Some(_) => {
                proof {
                    use_type_invariant(&*self);
                }
                let mut conflicts: Vec<RuleKey> = Vec::new();
                std::mem::swap(&mut self.conflicts, &mut conflicts);
                let ghost before = conflicts@;
                conflicts.push(key.copy());
                assert(keys_view(conflicts@) =~= keys_view(before).push(key_view(key)));
                self.conflicts = conflicts;
                assert(self.conflicted()[self.conflicted().len() - 1] == key_view(key));
                Err(DispatchError::Duplicate(key))
            },
            None => {
                proof {
                    use_type_invariant(&*self);
                }
                let ghost before = self.keys@;
                let mut keys: Vec<RuleKey> = Vec::new();
                std::mem::swap(&mut self.keys, &mut keys);
                keys.push(key);
                assert(keys_view(keys@) =~= keys_view(before).push(key_view(key)));
                assert(keys_view(keys@).no_duplicates()) by {
                    let v = keys_view(keys@);
                    assert forall|a: int, b: int| 0 <= a < v.len() && 0 <= b < v.len() && a != b
                        implies v[a] != v[b] by {
                        if a == v.len() - 1 {
                            assert(keys_view(before)[b] == v[b]);
                        } else if b == v.len() - 1 {
                            assert(keys_view(before)[a] == v[a]);
                        }
                    }
                }
                self.keys = keys;
                Ok(())
            },
        }
    }

    /// Builds a rule set from keys given in order. It is refused when two
    /// keys name the same triple; the error names the first key that repeats
    /// an earlier one.
    pub fn assemble(keys: Vec<RuleKey>) -> (r: Result<RuleSet, DispatchError>)
        ensures
            r is Ok <==> keys_view(keys@).no_duplicates(),
            r matches Ok(set) ==> set@ == keys_view(keys@) && set.conflicted().len() == 0,
            r matches Err(e) ==> e is Duplicate && exists|i: int|
                0 <= i < keys@.len() && #[trigger] key_view(keys@[i]) == key_view(e->Duplicate_0)
                    && keys_view(keys@.subrange(0, i)).no_duplicates() && keys_view(
                    keys@.subrange(0, i),
                ).contains(key_view(keys@[i])),
    {
        let mut set = RuleSet::new();
        let ghost all = keys@;
        let mut rest = keys;
        let mut taken: Vec<RuleKey> = Vec::new();
        let total: usize = rest.len();
        assert(all.len() == total);
        // Reverse the keys so that popping takes them in their given order.
        let mut pending: Vec<RuleKey> = Vec::new();
        while rest.len() > 0
            invariant
                all.len() == rest@.len() + pending@.len(),
                all.len() <= usize::MAX,
                forall|j: int| 0 <= j < rest@.len() ==> rest@[j] == all[j],
                forall|j: int|
                    0 <= j < pending@.len() ==> pending@[j] == all[all.len() - 1 - j],
            decreases rest.len(),
        {
            let k = rest.pop().unwrap();
            pending.push(k);
        }
        let mut i: usize = 0;
        while pending.len() > 0
            invariant
                all.len() == i + pending@.len(),
                all.len() <= usize::MAX,
                all == keys@,
                forall|j: int|
                    0 <= j < pending@.len() ==> pending@[j] == all[all.len() - 1 - j],
                set@ == keys_view(all.subrange(0, i as int)),
                set.conflicted().len() == 0,
                keys_view(all.subrange(0, i as int)).no_duplicates(),
            decreases pending.len(),
        {
            let k = pending.pop().unwrap();
            assert(k == all[i as int]);
            let ghost kv = key_view(k);
            match set.register(k) {
                Ok(()) => {
                    assert(keys_view(all.subrange(0, i as int + 1)) =~= keys_view(
                        all.subrange(0, i as int),
                    ).push(kv));
                    proof {
                        use_type_invariant(&set);
                    }
                    assert(set@ == keys_view(all.subrange(0, i as int + 1)));
                    i = i + 1;
                },
                Err(e) => {
                    proof {
                        let pre = keys_view(all.subrange(0, i as int));
                        let w = choose|w: int| 0 <= w < pre.len() && pre[w] == kv;
                        let full = keys_view(all);
                        assert(full[w] == pre[w]);
                        assert(full[i as int] == kv);
                        assert(w < i);
                        assert(full[w] == full[i as int]);
                        assert(!full.no_duplicates());
                        assert(key_view(all[i as int]) == key_view(e->Duplicate_0));
                    }
                    return Err(e);
                },
            }
        }
        assert(all.subrange(0, i as int) =~= all);
        Ok(set)
    }

    /// Checks that every triple of `wanted` has exactly one rule; the error
    /// names the first one that has none, or more than one.
    pub fn require_all(&self, wanted: &Vec<RuleKey>) -> (r: Result<(), DispatchError>)
        ensures
            r is Ok <==> forall|i: int|
                0 <= i < wanted@.len() ==> self.usable(#[trigger] key_view(wanted@[i])),
            r matches Err(e) ==> exists|i: int|
                0 <= i < wanted@.len() && !self.usable(#[trigger] key_view(wanted@[i])) && (forall|
                    j: int,
                | 0 <= j < i ==> self.usable(#[trigger] key_view(wanted@[j]))) && ((e is Missing
                    && key_view(e->Missing_0) == key_view(wanted@[i])) || (e is Duplicate
                    && key_view(e->Duplicate_0) == key_view(wanted@[i]))),
    {
        let mut i: usize = 0;
        while i < wanted.len()
            invariant
                i <= wanted.len(),
                forall|j: int| 0 <= j < i ==> self.usable(#[trigger] key_view(wanted@[j])),
            decreases wanted.len() - i,
        {
            match self.resolve(&wanted[i]) {
                Ok(_) => {},
                Err(e) => {
                    assert(!self.usable(key_view(wanted@[i as int])));
                    return Err(e);
                },
            }
            i = i + 1;
        }
        Ok(())
    }
}

/// A typed rule: its key, and the function that converts an input. The
/// function is given the role it is applied under, whose configuration it
/// may read and whose other rules it may apply.
pub struct Rule<F> {
    pub key: RuleKey,
    pub body: F,
}

/// A named context holding a configuration, under which rules are defined and applied.
pub struct Role<C> {
    pub name: String,
    pub config: C,
    pub rules: RuleSet,
}

impl<C> Role<C> {
    /// A role with no rules.
    pub fn new(name: &str, config: C) -> (r: Role<C>)
        ensures
            r.name@ == name@,
            r.config == config,
            r.rules@.len() == 0,
            r.rules.conflicted().len() == 0,
    {
        Role { name: name.to_owned(), config, rules: RuleSet::new() }
    }

    /// Defines the rule of this role from the type tagged `input` to the type
    /// tagged `output`. A second rule for the same pair is refused, and the
    /// pair becomes unusable under this role: the rule defined first cannot
    /// be applied either.
    pub fn define<F>(&mut self, input: &str, output: &str, body: F) -> (r: Result<Rule<F>, DispatchError>)
        ensures
            final(self).name == old(self).name,
            final(self).config == old(self).config,
            r is Ok <==> !old(self).rules@.contains((old(self).name@, input@, output@)),
            r matches Ok(rule) ==> key_view(rule.key) == (old(self).name@, input@, output@)
                && rule.body == body && final(self).rules@ == old(self).rules@.push(key_view(rule.key))
                && final(self).rules.conflicted() == old(self).rules.conflicted(),
            r matches Err(e) ==> final(self).rules@ == old(self).rules@ && final(self).rules.conflicted()
                == old(self).rules.conflicted().push((old(self).name@, input@, output@)) && e is Duplicate
                && key_view(e->Duplicate_0) == (old(self).name@, input@, output@),
            r is Err ==> !final(self).rules.usable((old(self).name@, input@, output@)),
    {
        let key = RuleKey::new(self.name.as_str(), input, output);
        let handle = key.copy();
        match self.rules.register(key) {
            Ok(()) => Ok(Rule { key: handle, body }),
            Err(e) => Err(e),
        }
    }

    /// Checks that this role has exactly one rule from the type tagged
    /// `input` to the type tagged `output`.
    pub fn require(&self, input: &str, output: &str) -> (r: Result<(), DispatchError>)
        ensures
            r is Ok <==> self.rules.usable((self.name@, input@, output@)),
            r matches Err(e) ==> (e is Missing && key_view(e->Missing_0) == (self.name@, input@, output@))
                || (e is Duplicate && key_view(e->Duplicate_0) == (self.name@, input@, output@)),
    {
        let key = RuleKey::new(self.name.as_str(), input, output);
        match self.rules.resolve(&key) {
            Ok(_) => Ok(()),
            Err(e) => Err(e),
        }
    }

    /// Applies `rule`, which must be the one rule of its pair in this role,
    /// to one input.
    pub fn apply<I, O, F: Fn(&Role<C>, I) -> O>(&self, rule: &Rule<F>, input: I) -> (r: O)
        requires
            self.rules.usable(key_view(rule.key)),
            rule.body.requires((self, input)),
        ensures
            rule.body.ensures((self, input), r),
    {
        (rule.body)(self, input)
    }

    /// Applies `rule`, which must be the one rule of its pair in this role,
    /// to each input in order: one output per input, each what applying the
    /// rule to that input alone gives.
    pub fn apply_over_sequence<I, O, F: Fn(&Role<C>, I) -> O>(&self, rule: &Rule<F>, inputs: Vec<I>) -> (r: Vec<O>)
        requires
            self.rules.usable(key_view(rule.key)),
            forall|i: int| 0 <= i < inputs@.len() ==> rule.body.requires((self, #[trigger] inputs@[i])),
        ensures
            r@.len() == inputs@.len(),
            forall|i: int|
                0 <= i < inputs@.len() ==> rule.body.ensures((self, inputs@[i]), #[trigger] r@[i]),
    {
        let ghost all = inputs@;
        let mut rest = inputs;
        let total: usize = rest.len();
        assert(all.len() == total);
        // Reverse the inputs so that popping takes them in their given order.
        let mut pending: Vec<I> = Vec::new();
        while rest.len() > 0
            invariant
                all.len() == rest@.len() + pending@.len(),
                all.len() <= usize::MAX,
                forall|j: int| 0 <= j < rest@.len() ==> rest@[j] == all[j],
                forall|j: int|
                    0 <= j < pending@.len() ==> pending@[j] == all[all.len() - 1 - j],
            decreases rest.len(),
        {
            let x = rest.pop().unwrap();
            pending.push(x);
        }
        let mut out: Vec<O> = Vec::new();
        while pending.len() > 0
            invariant
                all.len() == out@.len() + pending@.len(),
                all == inputs@,
                forall|j: int|
                    0 <= j < pending@.len() ==> pending@[j] == all[all.len() - 1 - j],
                forall|i: int| 0 <= i < all.len() ==> rule.body.requires((self, #[trigger] all[i])),
                forall|i: int|
                    0 <= i < out@.len() ==> rule.body.ensures((self, all[i]), #[trigger] out@[i]),
            decreases pending.len(),
        {
            let x = pending.pop().unwrap();
            assert(x == all[out@.len() as int]);
            let y = (rule.body)(self, x);
            out.push(y);
        }
        out
    }
}

/// Applying a rule over a sequence agrees with applying it to each element
/// alone: where the rule's result is determined by its input, the output at
/// each position is exactly what `Role::apply` gives for that element.
pub proof fn lemma_sequence_agrees_with_single<C, I, O, F: Fn(&Role<C>, I) -> O>(
    role: &Role<C>,
    rule: &Rule<F>,
    inputs: Seq<I>,
    outputs: Seq<O>,
    i: int,
    single: O,
)
    requires
        forall|x: I, a: O, b: O|
            rule.body.ensures((role, x), a) && rule.body.ensures((role, x), b) ==> a == b,
        outputs.len() == inputs.len(),
        forall|k: int| 0 <= k < inputs.len() ==> rule.body.ensures((role, inputs[k]), #[trigger] outputs[k]),
        0 <= i < inputs.len(),
        rule.body.ensures((role, inputs[i]), single),
    ensures
        outputs[i] == single,
{
    assert(rule.body.ensures((role, inputs[i]), outputs[i]));
}

/// Two rules given for the same triple make a key list that
/// `RuleSet::assemble` refuses: neither the first nor the last is kept.
pub proof fn lemma_duplicate_refused(keys: Seq<RuleKey>, i: int, j: int)
    requires
        0 <= i < j < keys.len(),
        key_view(keys[i]) == key_view(keys[j]),
    ensures
        !keys_view(keys).no_duplicates(),
{
    assert(keys_view(keys)[i] == keys_view(keys)[j]);
}

} // verus!
