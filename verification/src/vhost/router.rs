//! The virtual host router: domain configurations keyed by lower-cased name.

use vstd::prelude::*;

use crate::config::Config;
use crate::text::{
    find_string, is_ascii_text, lemma_case_forms_ignore_ascii_case, same_ignoring_ascii_case,
    spec_to_lowercase, string_views, to_lowercase,
};
use crate::vhost::domain::{domain_views, opt_domain_view, DomainConfig, DomainConfigView};

verus! {

/// The key a domain name looks up.
pub open spec fn domain_key(name: Seq<char>) -> Seq<char> {
    spec_to_lowercase(name)
}

/// The configuration stored under `key`.
pub open spec fn domain_lookup(m: Map<Seq<char>, DomainConfigView>, key: Seq<char>) -> Option<
    DomainConfigView,
> {
    if m.contains_key(key) {
        Some(m[key])
    } else {
        None
    }
}

/// Whether the domain `name` is known and enabled.
pub open spec fn spec_domain_enabled(m: Map<Seq<char>, DomainConfigView>, name: Seq<char>) -> bool {
    match domain_lookup(m, domain_key(name)) {
        Some(d) => d.enabled,
        None => false,
    }
}

/// Domain names are looked up without regard to the case of ASCII letters:
/// two ASCII names that differ only in the case of their letters have the
/// same key, find the same configuration, and are enabled alike.
pub proof fn lemma_domain_ignores_ascii_case(
    m: Map<Seq<char>, DomainConfigView>,
    n1: Seq<char>,
    n2: Seq<char>,
)
    requires
        is_ascii_text(n1),
        same_ignoring_ascii_case(n1, n2),
    ensures
        domain_key(n1) == domain_key(n2),
        domain_lookup(m, domain_key(n1)) == domain_lookup(m, domain_key(n2)),
        spec_domain_enabled(m, n1) == spec_domain_enabled(m, n2),
{
    lemma_case_forms_ignore_ascii_case(n1, n2);
}

/// Virtual host router
pub struct VirtualHostRouter {
    keys: Vec<String>,
    domains: Vec<DomainConfig>,
    default_domain: Option<String>,
}

/// The map a table of keys and configurations stands for.
spec fn table_view(keys: Seq<String>, domains: Seq<DomainConfig>) -> Map<Seq<char>, DomainConfigView> {
    Map::new(
        |k: Seq<char>| string_views(keys).contains(k),
        |k: Seq<char>| domain_views(domains)[string_views(keys).index_of(k)],
    )
}

/// Whether every configuration of a table is stored under its lower-cased
/// name, each name once.
spec fn table_wf(keys: Seq<String>, domains: Seq<DomainConfig>) -> bool {
    &&& keys.len() == domains.len()
    &&& string_views(keys).no_duplicates()
    &&& forall|i: int|
        0 <= i < keys.len() ==> #[trigger] string_views(keys)[i] == domain_key(
            domain_views(domains)[i].name,
        )
}

proof fn lemma_table_entry(keys: Seq<String>, domains: Seq<DomainConfig>, i: int)
    requires
        table_wf(keys, domains),
        0 <= i < keys.len(),
    ensures
        table_view(keys, domains).contains_key(string_views(keys)[i]),
        table_view(keys, domains)[string_views(keys)[i]] == domain_views(domains)[i],
{
    let kv = string_views(keys);
    assert(kv.contains(kv[i]));
    let j = kv.index_of(kv[i]);
    assert(kv[j] == kv[i]);
}

impl View for VirtualHostRouter {
    type V = Map<Seq<char>, DomainConfigView>;

    closed spec fn view(&self) -> Map<Seq<char>, DomainConfigView> {
        table_view(self.keys@, self.domains@)
    }
}

impl VirtualHostRouter {
    /// Whether every configuration is stored under its lower-cased name,
    /// each name once (and no default domain is set).
    #[verifier::type_invariant]
    pub closed spec fn wf(&self) -> bool {
        &&& table_wf(self.keys@, self.domains@)
        &&& self.default_domain is None
    }

    /// Every domain is stored under its own lower-cased name.
    pub proof fn lemma_stored_under_own_name(&self)
        requires
            self.wf(),
        ensures
            forall|k: Seq<char>| self@.contains_key(k) ==> domain_key((#[trigger] self@[k]).name) == k,
    {
        assert forall|k: Seq<char>| self@.contains_key(k) implies domain_key((#[trigger] self@[k]).name)
            == k by {
            let kv = string_views(self.keys@);
            let j = kv.index_of(k);
            assert(kv[j] == k);
        }
    }

    /// A router with no domains. (The domains directory is read by the
    /// caller, which adds each configuration it loads.)
    pub fn new(_config: &Config) -> (r: Self)
        ensures
            r@ == Map::<Seq<char>, DomainConfigView>::empty(),
    {
        Self::empty()
    }

    fn empty() -> (r: Self)
        ensures
            r@ == Map::<Seq<char>, DomainConfigView>::empty(),
    {
        let r = Self { keys: Vec::new(), domains: Vec::new(), default_domain: None };
        assert(string_views(r.keys@) =~= Seq::<Seq<char>>::empty());
        assert(r@ =~= Map::<Seq<char>, DomainConfigView>::empty());
        r
    }

    /// Get domain configuration by name, ignoring case.
    pub fn get_domain(&self, name: &str) -> (r: Option<DomainConfig>)
        ensures
            opt_domain_view(r) == domain_lookup(self@, domain_key(name@)),
    {
        let key = to_lowercase(name);
        self.get_by_key(key.as_str())
    }

    /// The configuration stored under the (lower-cased) key `key`.
    pub fn get_by_key(&self, key: &str) -> (r: Option<DomainConfig>)
        ensures
            opt_domain_view(r) == domain_lookup(self@, key@),
    {
        proof {
            use_type_invariant(self);
        }
        match find_string(&self.keys, key) {
            Some(i) => {
                proof {
                    lemma_table_entry(self.keys@, self.domains@, i as int);
                }
                Some(self.domains[i].clone())
            },
            None => None,
        }
    }

    /// Add or update a domain, under its lower-cased name.
    pub fn add_domain(&mut self, config: DomainConfig)
        ensures
            final(self)@ == old(self)@.insert(domain_key(config@.name), config@),
    {
        let key = to_lowercase(config.domain.name.as_str());
        self.add_under_key(key, config);
    }

    /// Add or update a domain under `key`, its lower-cased name.
    pub fn add_under_key(&mut self, key: String, config: DomainConfig)
        requires
            key@ == domain_key(config@.name),
        ensures
            final(self)@ == old(self)@.insert(key@, config@),
    {
        proof {
            use_type_invariant(&*self);
        }
        let ghost d = config@;
        let ghost old_view = self@;
        let mut taken = Self::empty();
        std::mem::swap(self, &mut taken);
        let VirtualHostRouter { mut keys, mut domains, default_domain } = taken;
        let ghost kv = string_views(keys@);
        let ghost dv = domain_views(domains@);
        assert(old_view == table_view(keys@, domains@));
        match find_string(&keys, key.as_str()) {
            Some(i) => {
                domains.set(i, config);
                proof {
                    assert(domain_views(domains@) =~= dv.update(i as int, d));
                    assert(string_views(keys@) == kv);
                    assert(table_view(keys@, domains@) =~= old_view.insert(domain_key(d.name), d)) by {
                        assert forall|k: Seq<char>| table_view(keys@, domains@).contains_key(k) implies table_view(keys@, domains@)[k]
                            == old_view.insert(domain_key(d.name), d)[k] by {
                            let j = kv.index_of(k);
                            assert(kv[j] == k);
                            if k == domain_key(d.name) {
                                assert(j == i);
                            }
                        }
                        assert(kv.contains(key@));
                    }
                    assert forall|j: int| 0 <= j < keys@.len() implies #[trigger] string_views(keys@)[j]
                        == domain_key(domain_views(domains@)[j].name) by {
                        if j != i {
                            assert(domain_views(domains@)[j] == dv[j]);
                        }
                    }
                }
            },
            None => {
                keys.push(key);
                domains.push(config);
                proof {
                    let kv2 = string_views(keys@);
                    let dv2 = domain_views(domains@);
                    assert(kv2 =~= kv.push(key@));
                    assert(dv2 =~= dv.push(d));
                    assert(table_view(keys@, domains@) =~= old_view.insert(domain_key(d.name), d)) by {
                        assert forall|k: Seq<char>| #[trigger] table_view(keys@, domains@).contains_key(k) <==> old_view.insert(
                            domain_key(d.name),
                            d,
                        ).contains_key(k) by {
                            if kv.contains(k) {
                                let j = choose|j: int| 0 <= j < kv.len() && kv[j] == k;
                                assert(kv2[j] == k);
                            }
                            if kv2.contains(k) && k != key@ {
                                let j = choose|j: int| 0 <= j < kv2.len() && kv2[j] == k;
                                assert(kv[j] == k);
                            }
                            assert(kv2[kv.len() as int] == key@);
                        }
                        assert forall|k: Seq<char>| table_view(keys@, domains@).contains_key(k) implies table_view(keys@, domains@)[k]
                            == old_view.insert(domain_key(d.name), d)[k] by {
                            let j2 = kv2.index_of(k);
                            assert(kv2[j2] == k);
                            if k == domain_key(d.name) {
                                assert(kv2[kv.len() as int] == k);
                                assert(j2 == kv.len());
                            } else {
                                assert(j2 < kv.len());
                                assert(kv[j2] == k);
                                let j = kv.index_of(k);
                                assert(kv[j] == k);
                                assert(j == j2);
                            }
                        }
                    }
                    assert forall|a: int, b: int|
                        0 <= a < kv2.len() && 0 <= b < kv2.len() && a != b implies kv2[a] != kv2[b] by {
                        if a < kv.len() && b < kv.len() {
                            assert(kv2[a] == kv[a]);
                            assert(kv2[b] == kv[b]);
                        } else if a < kv.len() {
                            assert(kv2[a] == kv[a]);
                            assert(kv.contains(kv[a]));
                        } else if b < kv.len() {
                            assert(kv2[b] == kv[b]);
                            assert(kv.contains(kv[b]));
                        }
                    }
                    assert forall|j: int| 0 <= j < keys@.len() implies #[trigger] string_views(keys@)[j]
                        == domain_key(domain_views(domains@)[j].name) by {
                        if j < kv.len() {
                            assert(kv2[j] == kv[j]);
                            assert(dv2[j] == dv[j]);
                        }
                    }
                }
            },
        }
        *self = VirtualHostRouter { keys, domains, default_domain };
    }

    /// Remove a domain, ignoring case; gives back what was stored.
    pub fn remove_domain(&mut self, name: &str) -> (r: Option<DomainConfig>)
        ensures
            final(self)@ == old(self)@.remove(domain_key(name@)),
            opt_domain_view(r) == domain_lookup(old(self)@, domain_key(name@)),
    {
        let key = to_lowercase(name);
        self.remove_by_key(key.as_str())
    }

    /// Remove what is stored under the (lower-cased) key `key`; gives it
    /// back.
    pub fn remove_by_key(&mut self, key: &str) -> (r: Option<DomainConfig>)
        ensures
            final(self)@ == old(self)@.remove(key@),
            opt_domain_view(r) == domain_lookup(old(self)@, key@),
    {
        proof {
            use_type_invariant(&*self);
        }
        let ghost old_view = self@;
        let mut taken = Self::empty();
        std::mem::swap(self, &mut taken);
        let VirtualHostRouter { mut keys, mut domains, default_domain } = taken;
        let ghost kv = string_views(keys@);
        let ghost dv = domain_views(domains@);
        assert(old_view == table_view(keys@, domains@));
        let r = match find_string(&keys, key) {
            Some(i) => {
                proof {
                    lemma_table_entry(keys@, domains@, i as int);
                }
                keys.remove(i);
                let d = domains.remove(i);
                proof {
                    let kv2 = string_views(keys@);
                    let dv2 = domain_views(domains@);
                    assert(kv2 =~= kv.remove(i as int));
                    assert(dv2 =~= dv.remove(i as int));
                    assert forall|a: int, b: int|
                        0 <= a < kv2.len() && 0 <= b < kv2.len() && a != b implies kv2[a] != kv2[b] by {
                        let a1 = if a < i { a } else { a + 1 };
                        let b1 = if b < i { b } else { b + 1 };
                        assert(kv2[a] == kv[a1]);
                        assert(kv2[b] == kv[b1]);
                    }
                    assert forall|j: int| 0 <= j < kv2.len() implies #[trigger] kv2[j] == domain_key(
                        dv2[j].name,
                    ) by {
                        let j1 = if j < i { j } else { j + 1 };
                        assert(kv2[j] == kv[j1]);
                        assert(dv2[j] == dv[j1]);
                    }
                    assert(table_view(keys@, domains@) =~= old_view.remove(key@)) by {
                        assert forall|k: Seq<char>| #[trigger] table_view(keys@, domains@).contains_key(k) <==> old_view.remove(
                            key@,
                        ).contains_key(k) by {
                            if kv2.contains(k) {
                                let j = choose|j: int| 0 <= j < kv2.len() && kv2[j] == k;
                                let j1 = if j < i { j } else { j + 1 };
                                assert(kv[j1] == k);
                                assert(j1 != i);
                            }
                            if kv.contains(k) && k != key@ {
                                let j = choose|j: int| 0 <= j < kv.len() && kv[j] == k;
                                assert(j != i);
                                let j2 = if j < i { j } else { j - 1 };
                                assert(kv2[j2] == k);
                            }
                        }
                        assert forall|k: Seq<char>| table_view(keys@, domains@).contains_key(k) implies table_view(keys@, domains@)[k]
                            == old_view.remove(key@)[k] by {
                            let j2 = kv2.index_of(k);
                            assert(kv2[j2] == k);
                            let j1 = if j2 < i { j2 } else { j2 + 1 };
                            assert(kv[j1] == k);
                            let j = kv.index_of(k);
                            assert(kv[j] == k);
                            assert(j == j1);
                        }
                    }
                }
                Some(d)
            },
            None => {
                assert(table_view(keys@, domains@) =~= old_view.remove(key@));
                None
            },
        };
        *self = VirtualHostRouter { keys, domains, default_domain };
        r
    }

    /// The keys of all domains, each once, in no particular order.
    pub fn list_domains(&self) -> (r: Vec<String>)
        ensures
            string_views(r@).no_duplicates(),
            string_views(r@).to_set() == self@.dom(),
    {
        proof {
            use_type_invariant(self);
        }
        let mut out: Vec<String> = Vec::new();
        let mut i: usize = 0;
        let ghost kv = string_views(self.keys@);
        while i < self.keys.len()
            invariant
                i <= self.keys@.len(),
                kv == string_views(self.keys@),
                string_views(out@) == kv.take(i as int),
            decreases self.keys.len() - i,
        {
            let k = self.keys[i].clone();
            let ghost old_out = out@;
            out.push(k);
            proof {
                assert(string_views(out@) =~= string_views(old_out).push(kv[i as int]));
                assert(kv.take(i + 1) =~= kv.take(i as int).push(kv[i as int]));
            }
            i = i + 1;
        }
        proof {
            assert(kv.take(kv.len() as int) =~= kv);
            assert(self@.dom() =~= kv.to_set());
        }
        out
    }

    /// Whether a domain is known and enabled.
    pub fn is_domain_enabled(&self, name: &str) -> (r: bool)
        ensures
            r == spec_domain_enabled(self@, name@),
    {
        match self.get_domain(name) {
            Some(d) => d.domain.enabled,
            None => false,
        }
    }

    /// Get the default domain name (none is ever set).
    pub fn default_domain(&self) -> (r: Option<&str>)
        ensures
            r is None,
    {
        proof {
            use_type_invariant(self);
        }
        match &self.default_domain {
            Some(d) => Some(d.as_str()),
            None => None,
        }
    }
}

/// After a domain is added, a lookup under any spelling of its name finds
/// it, and lookups of other names find what they found before.
pub proof fn lemma_get_after_add(
    m: Map<Seq<char>, DomainConfigView>,
    d: DomainConfigView,
    name: Seq<char>,
)
    ensures
        domain_lookup(m.insert(domain_key(d.name), d), domain_key(name)) == if domain_key(name)
            == domain_key(d.name) {
            Some(d)
        } else {
            domain_lookup(m, domain_key(name))
        },
{
}

/// After a domain is removed, no spelling of its name finds anything, and
/// lookups of other names find what they found before.
pub proof fn lemma_get_after_remove(
    m: Map<Seq<char>, DomainConfigView>,
    removed: Seq<char>,
    name: Seq<char>,
)
    ensures
        domain_lookup(m.remove(domain_key(removed)), domain_key(name)) == if domain_key(name)
            == domain_key(removed) {
            None
        } else {
            domain_lookup(m, domain_key(name))
        },
{
}

/// Two spellings with the same lower-case form find the same domain.
pub proof fn lemma_lookup_ignores_case(
    m: Map<Seq<char>, DomainConfigView>,
    a: Seq<char>,
    b: Seq<char>,
)
    requires
        spec_to_lowercase(a) == spec_to_lowercase(b),
    ensures
        domain_lookup(m, domain_key(a)) == domain_lookup(m, domain_key(b)),
        spec_domain_enabled(m, a) == spec_domain_enabled(m, b),
{
}

} // verus!
