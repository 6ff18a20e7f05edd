//! The configuration data model: packages with their dotfile mappings,
//! services and environment variables, the groups a document references, and
//! the global environment map.
//!
//! Maps are association vectors keyed by strings; their views are the entry
//! sequences, and [`assoc_get`] / [`assoc_set`] say what lookup and insertion
//! mean on those sequences.

use vstd::prelude::*;

use crate::strutil;

verus! {

/// The value bound to `k` in the entry sequence `s`, searching from the
/// front.
pub open spec fn assoc_get<T>(s: Seq<(Seq<char>, T)>, k: Seq<char>) -> Option<T>
    decreases s.len(),
{
    if s.len() == 0 {
        None
    } else if s[0].0 == k {
        Some(s[0].1)
    } else {
        assoc_get(s.drop_first(), k)
    }
}

/// `s` with `k` bound to `v`: the first entry for `k` is replaced in place,
/// or a new entry is appended at the end.
pub open spec fn assoc_set<T>(s: Seq<(Seq<char>, T)>, k: Seq<char>, v: T) -> Seq<(Seq<char>, T)>
    decreases s.len(),
{
    if s.len() == 0 {
        seq![(k, v)]
    } else if s[0].0 == k {
        seq![(k, v)] + s.drop_first()
    } else {
        seq![s[0]] + assoc_set(s.drop_first(), k, v)
    }
}

/// The keys of the entry sequence, in order.
pub open spec fn assoc_keys<T>(s: Seq<(Seq<char>, T)>) -> Seq<Seq<char>> {
    s.map_values(|e: (Seq<char>, T)| e.0)
}

/// No key occurs twice in the entry sequence.
pub open spec fn assoc_unique<T>(s: Seq<(Seq<char>, T)>) -> bool {
    forall|i: int, j: int| 0 <= i < j < s.len() ==> s[i].0 != s[j].0
}

/// Setting a key binds it and leaves every other key unchanged.
pub proof fn lemma_assoc_set_get<T>(s: Seq<(Seq<char>, T)>, k: Seq<char>, v: T, q: Seq<char>)
    ensures
        assoc_get(assoc_set(s, k, v), q) == if q == k {
            Some(v)
        } else {
            assoc_get(s, q)
        },
    decreases s.len(),
{
    if s.len() > 0 && s[0].0 != k {
        lemma_assoc_set_get(s.drop_first(), k, v, q);
        let t = seq![s[0]] + assoc_set(s.drop_first(), k, v);
        assert(assoc_set(s, k, v) == t);
        assert(t[0] == s[0]);
        assert(t.len() > 0);
        assert(t.drop_first() =~= assoc_set(s.drop_first(), k, v));
        if q == s[0].0 {
            assert(assoc_get(t, q) == Some(t[0].1));
            assert(assoc_get(s, q) == Some(s[0].1));
        } else {
            assert(assoc_get(t, q) == assoc_get(t.drop_first(), q));
            assert(assoc_get(s, q) == assoc_get(s.drop_first(), q));
        }
        assert(assoc_get(t, q) == if q == k { Some(v) } else { assoc_get(s, q) });
    } else if s.len() > 0 && s[0].0 == k {
        let t = seq![(k, v)] + s.drop_first();
        assert(assoc_set(s, k, v) == t);
        assert(t[0] == (k, v));
        assert(t.drop_first() =~= s.drop_first());
        if q == k {
            assert(assoc_get(t, q) == Some(v));
        } else {
            assert(assoc_get(t, q) == assoc_get(s.drop_first(), q));
            assert(assoc_get(s, q) == assoc_get(s.drop_first(), q));
        }
        assert(assoc_get(t, q) == if q == k { Some(v) } else { assoc_get(s, q) });
    } else {
        let t = seq![(k, v)];
        assert(assoc_set(s, k, v) == t);
        assert(t[0] == (k, v));
        assert(t.drop_first() =~= Seq::<(Seq<char>, T)>::empty());
        if q == k {
            assert(assoc_get(t, q) == Some(v));
        } else {
            assert(assoc_get(t, q) == assoc_get(t.drop_first(), q));
            assert(assoc_get(t.drop_first(), q) is None);
            assert(assoc_get(s, q) is None);
        }
        assert(assoc_get(t, q) == if q == k { Some(v) } else { assoc_get(s, q) });
    }
}

/// Setting a key preserves key uniqueness.
pub proof fn lemma_assoc_set_unique<T>(s: Seq<(Seq<char>, T)>, k: Seq<char>, v: T)
    requires
        assoc_unique(s),
    ensures
        assoc_unique(assoc_set(s, k, v)),
        assoc_keys(assoc_set(s, k, v)) == if assoc_get(s, k) is Some {
            assoc_keys(s)
        } else {
            assoc_keys(s).push(k)
        },
    decreases s.len(),
{
    if s.len() == 0 {
        assert(assoc_keys(assoc_set(s, k, v)) =~= assoc_keys(s).push(k));
    } else if s[0].0 == k {
        let t = seq![(k, v)] + s.drop_first();
        assert(assoc_set(s, k, v) == t);
        assert(t.drop_first() =~= s.drop_first());
        assert(t[0] == (k, v));
        assert forall|j: int| 1 <= j < t.len() implies t[j] == s[j] by {
            assert(t[j] == t.drop_first()[j - 1]);
            assert(s[j] == s.drop_first()[j - 1]);
        }
        assert forall|j: int| 0 <= j < t.len() implies #[trigger] assoc_keys(t)[j] == assoc_keys(
            s,
        )[j] by {
            assert(assoc_keys(t)[j] == t[j].0);
            assert(assoc_keys(s)[j] == s[j].0);
        }
        assert(assoc_keys(t) =~= assoc_keys(s));
        assert forall|i: int, j: int| 0 <= i < j < t.len() implies t[i].0 != t[j].0 by {
            assert(t[i].0 == s[i].0 && t[j].0 == s[j].0);
        }
    } else {
        assert(assoc_unique(s.drop_first()));
        lemma_assoc_set_unique(s.drop_first(), k, v);
        lemma_assoc_get_keys(s.drop_first(), k);
        let u = assoc_set(s.drop_first(), k, v);
        let t = seq![s[0]] + u;
        assert(assoc_set(s, k, v) == t);
        assert(t[0] == s[0]);
        assert(t.drop_first() =~= u);
        assert forall|j: int| 1 <= j < t.len() implies t[j] == u[j - 1] by {
            assert(t[j] == t.drop_first()[j - 1]);
        }
        assert(forall|j: int| 0 <= j < u.len() ==> #[trigger] assoc_keys(u)[j] == u[j].0);
        assert(forall|j: int| 0 <= j < s.len() ==> #[trigger] assoc_keys(s)[j] == s[j].0);
        assert(forall|j: int| 0 <= j < t.len() ==> #[trigger] assoc_keys(t)[j] == t[j].0);
        assert(forall|j: int|
            0 <= j < s.drop_first().len() ==> #[trigger] assoc_keys(s.drop_first())[j]
                == s.drop_first()[j].0);
        // s[0].0 differs from every key of u: those are the keys of
        // s.drop_first(), possibly with k appended, and uniqueness of s
        // keeps s[0].0 out of the former while the branch keeps it from k.
        assert(assoc_keys(u).len() == u.len());
        assert(assoc_keys(s.drop_first()).len() == s.drop_first().len());
        assert forall|j: int| 0 <= j < u.len() implies u[j].0 != s[0].0 by {
            if assoc_get(s.drop_first(), k) is Some {
                assert(assoc_keys(u) == assoc_keys(s.drop_first()));
                assert(u[j].0 == assoc_keys(u)[j]);
                assert(assoc_keys(s.drop_first())[j] == s.drop_first()[j].0);
                assert(u[j].0 == s.drop_first()[j].0);
                assert(s.drop_first()[j] == s[j + 1]);
            } else {
                assert(assoc_keys(u) == assoc_keys(s.drop_first()).push(k));
                assert(u[j].0 == assoc_keys(u)[j]);
                if j < u.len() - 1 {
                    assert(assoc_keys(u)[j] == assoc_keys(s.drop_first())[j]);
                    assert(assoc_keys(s.drop_first())[j] == s.drop_first()[j].0);
                    assert(u[j].0 == s.drop_first()[j].0);
                    assert(s.drop_first()[j] == s[j + 1]);
                } else {
                    assert(assoc_keys(u)[j] == k);
                    assert(u[j].0 == k);
                }
            }
        }
        assert forall|i: int, j: int| 0 <= i < j < t.len() implies t[i].0 != t[j].0 by {
            if i == 0 {
                assert(t[j].0 == u[j - 1].0);
            } else {
                assert(t[i].0 == u[i - 1].0 && t[j].0 == u[j - 1].0);
            }
        }
        if assoc_get(s.drop_first(), k) is Some {
            assert(assoc_keys(u) == assoc_keys(s.drop_first()));
            assert forall|j: int| 0 <= j < t.len() implies #[trigger] assoc_keys(t)[j]
                == assoc_keys(s)[j] by {
                assert(assoc_keys(t)[j] == t[j].0);
                assert(assoc_keys(s)[j] == s[j].0);
                if j >= 1 {
                    assert(t[j] == u[j - 1]);
                    assert(u[j - 1].0 == assoc_keys(u)[j - 1]);
                    assert(assoc_keys(s.drop_first())[j - 1] == s.drop_first()[j - 1].0);
                    assert(s.drop_first()[j - 1] == s[j]);
                }
            }
            assert(assoc_keys(t) =~= assoc_keys(s));
        } else {
            assert(assoc_keys(u) == assoc_keys(s.drop_first()).push(k));
            assert forall|j: int| 0 <= j < t.len() implies #[trigger] assoc_keys(t)[j]
                == assoc_keys(s).push(k)[j] by {
                assert(assoc_keys(t)[j] == t[j].0);
                if j >= 1 {
                    assert(t[j] == u[j - 1]);
                    assert(u[j - 1].0 == assoc_keys(u)[j - 1]);
                    if j < t.len() - 1 {
                        assert(assoc_keys(u)[j - 1] == assoc_keys(s.drop_first())[j - 1]);
                        assert(assoc_keys(s.drop_first())[j - 1] == s.drop_first()[j - 1].0);
                        assert(s.drop_first()[j - 1] == s[j]);
                        assert(assoc_keys(s).push(k)[j] == assoc_keys(s)[j]);
                        assert(assoc_keys(s)[j] == s[j].0);
                    } else {
                        assert(assoc_keys(u)[j - 1] == k);
                        assert(assoc_keys(s).push(k)[j] == k);
                    }
                } else {
                    assert(assoc_keys(s).push(k)[0] == assoc_keys(s)[0]);
                    assert(assoc_keys(s)[0] == s[0].0);
                }
            }
            assert(assoc_keys(t) =~= assoc_keys(s).push(k));
        }
    }
}

/// A key is bound exactly when it occurs among the keys.
pub proof fn lemma_assoc_get_keys<T>(s: Seq<(Seq<char>, T)>, k: Seq<char>)
    ensures
        (assoc_get(s, k) is Some) == assoc_keys(s).contains(k),
    decreases s.len(),
{
    if s.len() > 0 {
        lemma_assoc_get_keys(s.drop_first(), k);
        assert(assoc_keys(s.drop_first()) =~= assoc_keys(s).drop_first());
        if s[0].0 == k {
            assert(assoc_keys(s)[0] == k);
        } else {
            if assoc_keys(s).contains(k) {
                let i = choose|i: int| 0 <= i < assoc_keys(s).len() && assoc_keys(s)[i] == k;
                assert(assoc_keys(s).drop_first()[i - 1] == k);
            }
            if assoc_keys(s).drop_first().contains(k) {
                let i = choose|i: int|
                    0 <= i < assoc_keys(s).drop_first().len() && assoc_keys(s).drop_first()[i]
                        == k;
                assert(assoc_keys(s)[i + 1] == k);
            }
        }
    }
}

/// One environment entry: a variable name bound to a value.
#[derive(Debug, Clone)]
pub struct EnvEntry {
    pub key: String,
    pub value: String,
}

impl View for EnvEntry {
    type V = (Seq<char>, Seq<char>);

    open spec fn view(&self) -> (Seq<char>, Seq<char>) {
        (self.key@, self.value@)
    }
}

/// A map from variable names to values that keeps first-insertion order.
#[derive(Debug, Clone)]
pub struct EnvMap {
    pub entries: Vec<EnvEntry>,
}

impl View for EnvMap {
    type V = Seq<(Seq<char>, Seq<char>)>;

    open spec fn view(&self) -> Seq<(Seq<char>, Seq<char>)> {
        self.entries@.map_values(|e: EnvEntry| e@)
    }
}

impl EnvMap {
    /// No variable name occurs twice.
    pub open spec fn wf(&self) -> bool {
        assoc_unique(self@)
    }

    /// The value bound to `k`, if any.
    pub open spec fn spec_get(&self, k: Seq<char>) -> Option<Seq<char>> {
        assoc_get(self@, k)
    }

    /// Creates an empty map.
    pub fn new() -> (r: EnvMap)
        ensures
            r@ == Seq::<(Seq<char>, Seq<char>)>::empty(),
            r.wf(),
    {
        let r = EnvMap { entries: Vec::new() };
        proof {
            assert(r@ =~= Seq::<(Seq<char>, Seq<char>)>::empty());
        }
        r
    }

    /// How many variables are bound.
    pub fn len(&self) -> (r: usize)
        ensures
            r == self@.len(),
    {
        self.entries.len()
    }

    /// Whether no variable is bound.
    pub fn is_empty(&self) -> (r: bool)
        ensures
            r == (self@.len() == 0),
    {
        self.entries.len() == 0
    }

    /// Returns the value bound to `k`, as [`assoc_get`] describes.
    pub fn get(&self, k: &str) -> (r: Option<&String>)
        ensures
            match r {
                Some(v) => self.spec_get(k@) == Some(v@),
                None => self.spec_get(k@) is None,
            },
    {
        let n: usize = self.entries.len();
        let mut i: usize = 0;
        proof {
            assert(self@.skip(0) =~= self@);
        }
        while i < n
            invariant
                0 <= i <= n,
                n == self.entries.len(),
                assoc_get(self@, k@) == assoc_get(self@.skip(i as int), k@),
            decreases n - i,
        {
            proof {
                assert(self@.skip(i as int)[0] == self@[i as int]);
                assert(self@.skip(i as int).drop_first() =~= self@.skip(i + 1));
            }
            if strutil::str_eq(self.entries[i].key.as_str(), k) {
                return Some(&self.entries[i].value);
            }
            i = i + 1;
        }
        None
    }

    /// Whether `k` is bound.
    pub fn contains_key(&self, k: &str) -> (r: bool)
        ensures
            r == (self.spec_get(k@) is Some),
    {
        self.get(k).is_some()
    }

    /// Binds `k` to `v`, as [`assoc_set`] describes.
    pub fn insert(&mut self, k: String, v: String)
        ensures
            final(self)@ == assoc_set(old(self)@, k@, v@),
    {
        let n: usize = self.entries.len();
        let mut i: usize = 0;
        while i < n
            invariant
                0 <= i <= n,
                n == self.entries.len(),
                self@ == old(self)@,
                forall|j: int| 0 <= j < i ==> old(self)@[j].0 != k@,
        decreases n - i,
        {
            if strutil::str_eq(self.entries[i].key.as_str(), k.as_str()) {
                self.entries[i] = EnvEntry { key: k, value: v };
                proof {
                    lemma_assoc_set_prefix(old(self)@, k@, v@, i as int);
                    assert(self@ =~= old(self)@.update(i as int, (k@, v@)));
                }
                return ;
            }
            i = i + 1;
        }
        self.entries.push(EnvEntry { key: k, value: v });
        proof {
            lemma_assoc_set_append(old(self)@, k@, v@);
            assert(self@ =~= old(self)@.push((k@, v@)));
        }
    }
}

/// When the first binding of `k` is at position `i`, setting `k` updates that
/// position.
proof fn lemma_assoc_set_prefix<T>(s: Seq<(Seq<char>, T)>, k: Seq<char>, v: T, i: int)
    requires
        0 <= i < s.len(),
        s[i].0 == k,
        forall|j: int| 0 <= j < i ==> s[j].0 != k,
    ensures
        assoc_set(s, k, v) == s.update(i, (k, v)),
    decreases i,
{
    if i == 0 {
        assert(assoc_set(s, k, v) =~= s.update(0, (k, v)));
    } else {
        let t = s.drop_first();
        assert(forall|j: int| 0 <= j < i - 1 ==> #[trigger] t[j].0 != k);
        assert(t[i - 1].0 == k);
        lemma_assoc_set_prefix(t, k, v, i - 1);
        assert(seq![s[0]] + t.update(i - 1, (k, v)) =~= s.update(i, (k, v)));
    }
}

/// When `k` is unbound, setting it appends the new entry.
pub proof fn lemma_assoc_set_append<T>(s: Seq<(Seq<char>, T)>, k: Seq<char>, v: T)
    requires
        forall|j: int| 0 <= j < s.len() ==> s[j].0 != k,
    ensures
        assoc_set(s, k, v) == s.push((k, v)),
    decreases s.len(),
{
    if s.len() == 0 {
        assert(assoc_set(s, k, v) =~= s.push((k, v)));
    } else {
        let t = s.drop_first();
        assert(forall|j: int| 0 <= j < t.len() ==> #[trigger] t[j].0 != k);
        lemma_assoc_set_append(t, k, v);
        assert(seq![s[0]] + t.push((k, v)) =~= s.push((k, v)));
    }
}

/// What one package declares: its dotfile mappings, an optional service, and
/// package-scoped environment variables.
#[derive(Debug, Clone)]
pub struct Package {
    pub config: Vec<String>,
    pub service: Option<String>,
    pub env_vars: EnvMap,
}

/// The mathematical content of a [`Package`].
pub ghost struct PackageView {
    pub config: Seq<Seq<char>>,
    pub service: Option<Seq<char>>,
    pub env_vars: Seq<(Seq<char>, Seq<char>)>,
}

impl View for Package {
    type V = PackageView;

    open spec fn view(&self) -> PackageView {
        PackageView {
            config: self.config.deep_view(),
            service: match self.service {
                Some(ref s) => Some(s@),
                None => None,
            },
            env_vars: self.env_vars@,
        }
    }
}

impl Package {
    /// A package with no directives.
    pub open spec fn empty_spec() -> PackageView {
        PackageView { config: Seq::empty(), service: None, env_vars: Seq::empty() }
    }

    /// Creates a package with no directives.
    pub fn new() -> (r: Package)
        ensures
            r@ == Package::empty_spec(),
            r.env_vars.wf(),
    {
        let r = Package { config: Vec::new(), service: None, env_vars: EnvMap::new() };
        proof {
            assert(r@.config =~= Seq::<Seq<char>>::empty());
        }
        r
    }

    /// Copies the package, field for field.
    pub fn duplicate(&self) -> (r: Package)
        ensures
            r@ == self@,
    {
        let service: Option<String> = match &self.service {
            Some(s) => Some(s.clone()),
            None => None,
        };
        let mut env_entries: Vec<EnvEntry> = Vec::new();
        let n: usize = self.env_vars.entries.len();
        let mut i: usize = 0;
        while i < n
            invariant
                0 <= i <= n,
                n == self.env_vars.entries.len(),
                env_entries@.map_values(|e: EnvEntry| e@) =~= self.env_vars@.subrange(0, i as int),
            decreases n - i,
        {
            let e = EnvEntry {
                key: self.env_vars.entries[i].key.clone(),
                value: self.env_vars.entries[i].value.clone(),
            };
            let ghost before = env_entries@.map_values(|q: EnvEntry| q@);
            env_entries.push(e);
            proof {
                assert(env_entries@.map_values(|q: EnvEntry| q@) =~= before.push(
                    self.env_vars@[i as int],
                ));
            }
            i = i + 1;
        }
        let r = Package {
            config: crate::strutil::clone_strings(&self.config),
            service,
            env_vars: EnvMap { entries: env_entries },
        };
        proof {
            assert(r.env_vars@ =~= self.env_vars@);
            assert(r.config.deep_view() =~= self.config.deep_view());
        }
        r
    }
}

/// A map from package names to packages that keeps first-declaration order.
#[derive(Debug, Clone)]
pub struct PackageMap {
    pub entries: Vec<PackageSlot>,
}

/// One named package in a [`PackageMap`].
#[derive(Debug, Clone)]
pub struct PackageSlot {
    pub name: String,
    pub package: Package,
}

impl View for PackageSlot {
    type V = (Seq<char>, PackageView);

    open spec fn view(&self) -> (Seq<char>, PackageView) {
        (self.name@, self.package@)
    }
}

impl View for PackageMap {
    type V = Seq<(Seq<char>, PackageView)>;

    open spec fn view(&self) -> Seq<(Seq<char>, PackageView)> {
        self.entries@.map_values(|e: PackageSlot| e@)
    }
}

impl PackageMap {
    /// No package name occurs twice.
    pub open spec fn wf(&self) -> bool {
        assoc_unique(self@)
    }

    /// The package named `k`, if any.
    pub open spec fn spec_get(&self, k: Seq<char>) -> Option<PackageView> {
        assoc_get(self@, k)
    }

    /// Creates an empty map.
    pub fn new() -> (r: PackageMap)
        ensures
            r@ == Seq::<(Seq<char>, PackageView)>::empty(),
            r.wf(),
    {
        let r = PackageMap { entries: Vec::new() };
        proof {
            assert(r@ =~= Seq::<(Seq<char>, PackageView)>::empty());
        }
        r
    }

    /// How many packages are declared.
    pub fn len(&self) -> (r: usize)
        ensures
            r == self@.len(),
    {
        self.entries.len()
    }

    /// Whether no package is declared.
    pub fn is_empty(&self) -> (r: bool)
        ensures
            r == (self@.len() == 0),
    {
        self.entries.len() == 0
    }

    /// The position of the package named `k`, if any.
    fn index_of(&self, k: &str) -> (r: Option<usize>)
        ensures
            match r {
                Some(i) => i < self@.len() && self@[i as int].0 == k@ && assoc_get(self@, k@)
                    == Some(self@[i as int].1) && forall|j: int|
                    0 <= j < i ==> self@[j].0 != k@,
                None => assoc_get(self@, k@) is None,
            },
    {
        let n: usize = self.entries.len();
        let mut i: usize = 0;
        proof {
            assert(self@.skip(0) =~= self@);
        }
        while i < n
            invariant
                0 <= i <= n,
                n == self.entries.len(),
                assoc_get(self@, k@) == assoc_get(self@.skip(i as int), k@),
                forall|j: int| 0 <= j < i ==> self@[j].0 != k@,
            decreases n - i,
        {
            proof {
                assert(self@.skip(i as int)[0] == self@[i as int]);
                assert(self@.skip(i as int).drop_first() =~= self@.skip(i + 1));
            }
            if strutil::str_eq(self.entries[i].name.as_str(), k) {
                return Some(i);
            }
            i = i + 1;
        }
        None
    }

    /// Returns the package named `k`, as [`assoc_get`] describes.
    pub fn get(&self, k: &str) -> (r: Option<&Package>)
        ensures
            match r {
                Some(p) => self.spec_get(k@) == Some(p@),
                None => self.spec_get(k@) is None,
            },
    {
        match self.index_of(k) {
            Some(i) => Some(&self.entries[i].package),
            None => None,
        }
    }

    /// Whether a package named `k` is declared.
    pub fn contains_key(&self, k: &str) -> (r: bool)
        ensures
            r == (self.spec_get(k@) is Some),
    {
        self.index_of(k).is_some()
    }

    /// Binds `k` to `v`, as [`assoc_set`] describes.
    pub fn insert(&mut self, k: String, v: Package)
        ensures
            final(self)@ == assoc_set(old(self)@, k@, v@),
    {
        match self.index_of(k.as_str()) {
            Some(i) => {
                let ghost oldv = self@;
                self.entries[i] = PackageSlot { name: k, package: v };
                proof {
                    lemma_assoc_set_prefix(oldv, k@, v@, i as int);
                    assert(self@ =~= oldv.update(i as int, (k@, v@)));
                }
            },
            None => {
                let ghost oldv = self@;
                self.entries.push(PackageSlot { name: k, package: v });
                proof {
                    lemma_assoc_get_none_no_key(oldv, k@);
                    lemma_assoc_set_append(oldv, k@, v@);
                    assert(self@ =~= oldv.push((k@, v@)));
                }
            },
        }
    }
}

/// Every entry of a set is an entry of the original or the new binding.
pub proof fn lemma_assoc_set_values<T>(s: Seq<(Seq<char>, T)>, k: Seq<char>, v: T)
    ensures
        forall|i: int|
            0 <= i < assoc_set(s, k, v).len() ==> (exists|j: int|
                0 <= j < s.len() && #[trigger] assoc_set(s, k, v)[i] == s[j]) || assoc_set(
                s,
                k,
                v,
            )[i] == (k, v),
    decreases s.len(),
{
    if s.len() == 0 {
        assert(assoc_set(s, k, v) =~= seq![(k, v)]);
    } else if s[0].0 == k {
        let t = seq![(k, v)] + s.drop_first();
        assert(assoc_set(s, k, v) == t);
        assert forall|i: int|
            0 <= i < t.len() implies (exists|j: int|
            0 <= j < s.len() && #[trigger] t[i] == s[j]) || t[i] == (k, v) by {
            if i > 0 {
                assert(t[i] == s.drop_first()[i - 1]);
                assert(t[i] == s[i]);
            }
        }
    } else {
        lemma_assoc_set_values(s.drop_first(), k, v);
        let u = assoc_set(s.drop_first(), k, v);
        let t = seq![s[0]] + u;
        assert(assoc_set(s, k, v) == t);
        assert forall|i: int|
            0 <= i < t.len() implies (exists|j: int|
            0 <= j < s.len() && #[trigger] t[i] == s[j]) || t[i] == (k, v) by {
            if i == 0 {
                assert(t[0] == s[0]);
            } else {
                assert(t[i] == u[i - 1]);
                if exists|j: int| 0 <= j < s.drop_first().len() && u[i - 1] == s.drop_first()[j] {
                    let j = choose|j: int|
                        0 <= j < s.drop_first().len() && u[i - 1] == s.drop_first()[j];
                    assert(s.drop_first()[j] == s[j + 1]);
                    assert(t[i] == s[j + 1]);
                }
            }
        }
    }
}

/// An unbound key occurs nowhere in the entries.
proof fn lemma_assoc_get_none_no_key<T>(s: Seq<(Seq<char>, T)>, k: Seq<char>)
    requires
        assoc_get(s, k) is None,
    ensures
        forall|j: int| 0 <= j < s.len() ==> s[j].0 != k,
    decreases s.len(),
{
    if s.len() > 0 {
        lemma_assoc_get_none_no_key(s.drop_first(), k);
        assert(forall|j: int| 1 <= j < s.len() ==> s[j] == s.drop_first()[j - 1]);
    }
}

/// One merged configuration: the declared packages, the groups the documents
/// reference, and the global environment variables.
#[derive(Debug, Clone)]
pub struct Config {
    pub packages: PackageMap,
    pub groups: Vec<String>,
    pub env_vars: EnvMap,
}

/// The mathematical content of a [`Config`].
pub ghost struct ConfigView {
    pub packages: Seq<(Seq<char>, PackageView)>,
    pub groups: Seq<Seq<char>>,
    pub env_vars: Seq<(Seq<char>, Seq<char>)>,
}

impl View for Config {
    type V = ConfigView;

    open spec fn view(&self) -> ConfigView {
        ConfigView {
            packages: self.packages@,
            groups: self.groups.deep_view(),
            env_vars: self.env_vars@,
        }
    }
}

/// A bound value is the value of some entry.
pub proof fn lemma_assoc_get_entry<T>(s: Seq<(Seq<char>, T)>, k: Seq<char>)
    requires
        assoc_get(s, k) is Some,
    ensures
        exists|j: int|
            0 <= j < s.len() && #[trigger] s[j] == (k, assoc_get(s, k)->Some_0),
    decreases s.len(),
{
    if s.len() > 0 && s[0].0 != k {
        lemma_assoc_get_entry(s.drop_first(), k);
        let j = choose|j: int|
            0 <= j < s.drop_first().len() && #[trigger] s.drop_first()[j] == (
                k,
                assoc_get(s.drop_first(), k)->Some_0,
            );
        assert(s[j + 1] == s.drop_first()[j]);
    } else if s.len() > 0 {
        assert(s[0] == (k, assoc_get(s, k)->Some_0));
    }
}

/// The environment of a declared package has unique keys.
pub proof fn lemma_pkg_env_unique(c: ConfigView, name: Seq<char>)
    requires
        config_wf(c),
        assoc_get(c.packages, name) is Some,
    ensures
        assoc_unique(assoc_get(c.packages, name)->Some_0.env_vars),
{
    lemma_assoc_get_entry(c.packages, name);
    let j = choose|j: int|
        0 <= j < c.packages.len() && #[trigger] c.packages[j] == (
            name,
            assoc_get(c.packages, name)->Some_0,
        );
    assert(assoc_unique(c.packages[j].1.env_vars));
}

/// Replacing one package by a well-formed one keeps the configuration well
/// formed.
pub proof fn lemma_set_package_wf(c: ConfigView, k: Seq<char>, v: PackageView, g: Seq<Seq<char>>)
    requires
        config_wf(c),
        assoc_unique(v.env_vars),
    ensures
        config_wf(ConfigView { packages: assoc_set(c.packages, k, v), groups: g, ..c }),
{
    lemma_assoc_set_unique(c.packages, k, v);
    lemma_assoc_set_values(c.packages, k, v);
    let p = assoc_set(c.packages, k, v);
    assert forall|i: int| 0 <= i < p.len() implies assoc_unique(#[trigger] p[i].1.env_vars) by {
        if p[i] == (k, v) {
        } else {
            let j = choose|j: int| 0 <= j < c.packages.len() && #[trigger] p[i] == c.packages[j];
            assert(assoc_unique(c.packages[j].1.env_vars));
        }
    }
}

/// Package names, global environment keys and each package's environment
/// keys occur at most once.
pub open spec fn config_wf(c: ConfigView) -> bool {
    &&& assoc_unique(c.packages)
    &&& assoc_unique(c.env_vars)
    &&& forall|i: int| 0 <= i < c.packages.len() ==> assoc_unique(#[trigger] c.packages[i].1.env_vars)
}

impl Config {
    /// An empty configuration.
    pub open spec fn empty_spec() -> ConfigView {
        ConfigView { packages: Seq::empty(), groups: Seq::empty(), env_vars: Seq::empty() }
    }

    /// Package names and environment keys each occur at most once.
    pub open spec fn wf(&self) -> bool {
        config_wf(self@)
    }

    /// Creates an empty configuration.
    pub fn new() -> (r: Config)
        ensures
            r@ == Config::empty_spec(),
            r.wf(),
    {
        let r = Config { packages: PackageMap::new(), groups: Vec::new(), env_vars: EnvMap::new() };
        proof {
            assert(r@.groups =~= Seq::<Seq<char>>::empty());
        }
        r
    }
}

} // verus!
