//! Providers: named bundles of pure capabilities that check a hook's
//! configuration, classify and validate requests, and build the environment
//! a job carries. Each capability is specified exactly, so the request
//! pipeline's contract can say which provider accepts which request.

use vstd::prelude::*;
use vstd::string::*;

use crate::errors::{ErrorKind, FisherError, FisherResult};
use crate::kvmap::KvMap;
use crate::request::{Request, RequestType};

verus! {

/// Equality of two string slices, decided by their characters.
pub fn str_eq(a: &str, b: &str) -> (r: bool)
    ensures
        r == (a@ == b@),
{
    let sa: String = a.to_owned();
    let sb: String = b.to_owned();
    sa == sb
}

/// Which capability bundle a provider carries.
#[derive(Clone, Copy, PartialEq, Eq, Structural, Debug)]
pub enum ProviderKind {
    /// The sample provider used by the test environment: configuration
    /// "FAIL" is rejected, a "request_type" parameter of "ping" classifies
    /// as a ping, and a "secret" parameter must equal "testing".
    Testing,
}

/// Whether the testing provider accepts a configuration string.
pub open spec fn testing_config_ok(config: Seq<char>) -> bool {
    config != "FAIL"@
}

/// How the testing provider classifies a request.
pub open spec fn testing_request_type(req: Request) -> RequestType {
    if req.params@.contains_key("request_type"@) && req.params@["request_type"@] == "ping"@ {
        RequestType::Ping
    } else {
        RequestType::ExecuteHook
    }
}

/// Whether the testing provider validates a request.
pub open spec fn testing_validates(req: Request) -> bool {
    if req.params@.contains_key("secret"@) {
        req.params@["secret"@] == "testing"@
    } else {
        true
    }
}

/// Whether a provider of the given kind accepts a configuration string.
pub open spec fn provider_config_ok(kind: ProviderKind, config: Seq<char>) -> bool {
    match kind {
        ProviderKind::Testing => testing_config_ok(config),
    }
}

/// How a provider of the given kind classifies a request.
pub open spec fn provider_request_type(
    kind: ProviderKind,
    req: Request,
    config: Seq<char>,
) -> RequestType {
    match kind {
        ProviderKind::Testing => testing_request_type(req),
    }
}

/// Whether a provider of the given kind validates a request.
pub open spec fn provider_validates(kind: ProviderKind, req: Request, config: Seq<char>) -> bool {
    match kind {
        ProviderKind::Testing => testing_validates(req),
    }
}

/// The environment a provider of the given kind builds for a request.
pub open spec fn provider_env(
    kind: ProviderKind,
    req: Request,
    config: Seq<char>,
) -> Map<Seq<char>, Seq<char>> {
    match kind {
        ProviderKind::Testing => Map::empty(),
    }
}

/// A named provider.
pub struct Provider {
    pub name: String,
    pub kind: ProviderKind,
}

impl Clone for Provider {
    fn clone(&self) -> (r: Self)
        ensures
            r == *self,
    {
        let r = Provider { name: self.name.clone(), kind: self.kind };
        proof {
            assert(r == *self);
        }
        r
    }
}

impl Provider {
    pub fn new(name: String, kind: ProviderKind) -> (r: Provider)
        ensures
            r.name == name,
            r.kind == kind,
    {
        Provider { name, kind }
    }

    pub fn name(&self) -> (r: &str)
        ensures
            r@ == self.name@,
    {
        self.name.as_str()
    }

    /// Validates a hook's `##` header configuration at load time.
    pub fn check_config(&self, config: &str) -> (r: FisherResult<()>)
        ensures
            r is Ok <==> provider_config_ok(self.kind, config@),
            r is Err ==> r->Err_0.kind is InvalidHookConfig,
    {
        match self.kind {
            ProviderKind::Testing => {
                if str_eq(config, "FAIL") {
                    Err(FisherError::new(ErrorKind::InvalidHookConfig(config.to_owned())))
                } else {
                    Ok(())
                }
            },
        }
    }

    /// Classifies a request; cheap, called for every inbound request.
    pub fn request_type(&self, req: &Request, config: &str) -> (r: RequestType)
        ensures
            r == provider_request_type(self.kind, *req, config@),
    {
        match self.kind {
            ProviderKind::Testing => {
                let key: String = "request_type".to_owned();
                match req.params.get(&key) {
                    Some(v) => {
                        if str_eq(v.as_str(), "ping") {
                            RequestType::Ping
                        } else {
                            RequestType::ExecuteHook
                        }
                    },
                    None => RequestType::ExecuteHook,
                }
            },
        }
    }

    /// Decides whether the request is authentic for this provider.
    pub fn validate(&self, req: &Request, config: &str) -> (r: bool)
        ensures
            r == provider_validates(self.kind, *req, config@),
    {
        match self.kind {
            ProviderKind::Testing => {
                let key: String = "secret".to_owned();
                match req.params.get(&key) {
                    Some(v) => str_eq(v.as_str(), "testing"),
                    None => true,
                }
            },
        }
    }

    /// The provider-specific environment for a validated request.
    pub fn env(&self, req: &Request, config: &str) -> (r: KvMap)
        ensures
            r@ == provider_env(self.kind, *req, config@),
    {
        match self.kind {
            ProviderKind::Testing => KvMap::new(),
        }
    }
}

/// The map denoted by a list of registered providers, later registrations
/// shadowing earlier ones.
pub open spec fn providers_as_map(s: Seq<(String, Provider)>) -> Map<Seq<char>, Provider>
    decreases s.len(),
{
    if s.len() == 0 {
        Map::empty()
    } else {
        providers_as_map(s.drop_last()).insert(s.last().0@, s.last().1)
    }
}

/// The provider registered under `k`, if any.
pub open spec fn providers_get(s: Seq<(String, Provider)>, k: Seq<char>) -> Option<Provider>
    decreases s.len(),
{
    if s.len() == 0 {
        None
    } else if s.last().0@ == k {
        Some(s.last().1)
    } else {
        providers_get(s.drop_last(), k)
    }
}

/// `providers_get` computes exactly the lookup in `providers_as_map`.
pub proof fn lemma_providers_get_as_map(s: Seq<(String, Provider)>, k: Seq<char>)
    ensures
        providers_as_map(s).contains_key(k) ==> providers_get(s, k) == Some(
            providers_as_map(s)[k],
        ),
        !providers_as_map(s).contains_key(k) ==> providers_get(s, k) is None,
    decreases s.len(),
{
    if s.len() > 0 {
        lemma_providers_get_as_map(s.drop_last(), k);
    }
}

/// The registry of providers, looked up by name.
pub struct Providers {
    providers: Vec<(String, Provider)>,
}

impl View for Providers {
    type V = Map<Seq<char>, Provider>;

    closed spec fn view(&self) -> Map<Seq<char>, Provider> {
        providers_as_map(self.providers@)
    }
}

impl Providers {
    pub fn new() -> (r: Providers)
        ensures
            r@ == Map::<Seq<char>, Provider>::empty(),
    {
        Providers { providers: Vec::new() }
    }

    /// Registers `provider` under `name`, shadowing an earlier registration.
    pub fn add(&mut self, name: &str, provider: Provider)
        ensures
            final(self)@ == old(self)@.insert(name@, provider),
    {
        let ghost before = self.providers@;
        let owned: String = name.to_owned();
        let ghost entry = (owned, provider);
        self.providers.push((owned, provider));
        proof {
            assert(self.providers@.drop_last() =~= before);
            assert(self.providers@.last() == entry);
        }
    }

    /// The provider registered under `name`, or a `ProviderNotFound` error.
    pub fn by_name(&self, name: &str) -> (r: FisherResult<Provider>)
        ensures
            self@.contains_key(name@) ==> r is Ok && r->Ok_0 == self@[name@],
            !self@.contains_key(name@) ==> r is Err && r->Err_0.kind is ProviderNotFound,
    {
        let mut i: usize = self.providers.len();
        proof {
            assert(self.providers@.take(self.providers@.len() as int) =~= self.providers@);
        }
        while i > 0
            invariant
                i <= self.providers.len(),
                providers_get(self.providers@, name@) == providers_get(
                    self.providers@.take(i as int),
                    name@,
                ),
            decreases i,
        {
            i = i - 1;
            proof {
                assert(self.providers@.take(i + 1).drop_last() =~= self.providers@.take(i as int));
                assert(self.providers@.take(i + 1).last() == self.providers@[i as int]);
            }
            if str_eq(self.providers[i].0.as_str(), name) {
                proof {
                    lemma_providers_get_as_map(self.providers@, name@);
                }
                return Ok(self.providers[i].1.clone());
            }
        }
        proof {
            lemma_providers_get_as_map(self.providers@, name@);
            assert(self.providers@.take(0) =~= Seq::<(String, Provider)>::empty());
        }
        Err(FisherError::new(ErrorKind::ProviderNotFound(name.to_owned())))
    }
}

/// A provider bound to one hook, with the hook's configuration fixed.
pub struct HookProvider {
    pub provider: Provider,
    pub config: String,
}

impl Clone for HookProvider {
    fn clone(&self) -> (r: Self)
        ensures
            r == *self,
    {
        let r = HookProvider { provider: self.provider.clone(), config: self.config.clone() };
        proof {
            assert(r == *self);
        }
        r
    }
}

impl HookProvider {
    /// Binds `provider` with `config`, rejecting a configuration the
    /// provider does not accept.
    pub fn new(provider: Provider, config: String) -> (r: FisherResult<HookProvider>)
        ensures
            r is Ok <==> provider_config_ok(provider.kind, config@),
            r is Ok ==> r->Ok_0 == (HookProvider { provider, config }),
            r is Err ==> r->Err_0.kind is InvalidHookConfig,
    {
        match provider.check_config(config.as_str()) {
            Ok(_) => Ok(HookProvider { provider, config }),
            Err(e) => Err(e),
        }
    }

    pub fn name(&self) -> (r: &str)
        ensures
            r@ == self.provider.name@,
    {
        self.provider.name()
    }

    pub fn request_type(&self, req: &Request) -> (r: RequestType)
        ensures
            r == provider_request_type(self.provider.kind, *req, self.config@),
    {
        self.provider.request_type(req, self.config.as_str())
    }

    pub fn validate(&self, req: &Request) -> (r: bool)
        ensures
            r == provider_validates(self.provider.kind, *req, self.config@),
    {
        self.provider.validate(req, self.config.as_str())
    }

    pub fn env(&self, req: &Request) -> (r: KvMap)
        ensures
            r@ == provider_env(self.provider.kind, *req, self.config@),
    {
        self.provider.env(req, self.config.as_str())
    }
}

} // verus!
