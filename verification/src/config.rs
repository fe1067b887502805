//! The hot-reload coordinator: the shared configuration snapshot consumed
//! by request handling, with each field updated independently and swapped
//! whole, so a reader sees either the fully-old or the fully-new value of a
//! field, never a mixture.

use vstd::prelude::*;

use crate::pool::{binding_value, bindings_view, lemma_find_binding_from_props};

verus! {

/// The upstream network-proxy target.
pub struct UpstreamProxyConfig {
    /// Whether outbound calls go through the proxy.
    pub enabled: bool,
    /// The proxy URL.
    pub url: String,
}

/// Vendor credentials for the z.ai upstream.
pub struct ZaiConfig {
    /// Base URL of the vendor API.
    pub base_url: String,
    /// Bearer key for the vendor API.
    pub api_key: String,
}

/// The auth policy applied to proxy traffic.
pub struct SecurityConfig {
    /// Whether proxy-prefixed paths demand an API key.
    pub require_api_key: bool,
    /// The key proxy callers must present.
    pub api_key: String,
}

/// The proxy-facing part of the application configuration, as loaded from
/// storage and offered over the admin API.
pub struct ProxyConfig {
    /// Model-name mapping: requested name to upstream name.
    pub custom_mapping: Vec<(String, String)>,
    /// Upstream network-proxy target.
    pub upstream_proxy: UpstreamProxyConfig,
    /// Vendor credentials.
    pub zai: ZaiConfig,
    /// Auth policy for proxy traffic.
    pub security: SecurityConfig,
}

/// Field-wise copy of an upstream-proxy target.
pub fn clone_upstream(c: &UpstreamProxyConfig) -> (r: UpstreamProxyConfig)
    ensures
        r == *c,
{
    UpstreamProxyConfig { enabled: c.enabled, url: c.url.clone() }
}

/// Field-wise copy of vendor credentials.
pub fn clone_zai(c: &ZaiConfig) -> (r: ZaiConfig)
    ensures
        r == *c,
{
    ZaiConfig { base_url: c.base_url.clone(), api_key: c.api_key.clone() }
}

/// Field-wise copy of an auth policy.
pub fn clone_security(c: &SecurityConfig) -> (r: SecurityConfig)
    ensures
        r == *c,
{
    SecurityConfig { require_api_key: c.require_api_key, api_key: c.api_key.clone() }
}

/// Field-wise copy of a model-mapping table.
pub fn clone_mapping(m: &Vec<(String, String)>) -> (r: Vec<(String, String)>)
    ensures
        r@ == m@,
{
    let mut out: Vec<(String, String)> = Vec::new();
    let mut i: usize = 0;
    while i < m.len()
        invariant
            i <= m@.len(),
            out@ == m@.subrange(0, i as int),
        decreases m@.len() - i,
    {
        let pair = (m[i].0.clone(), m[i].1.clone());
        out.push(pair);
        proof {
            assert(out@ =~= m@.subrange(0, i + 1));
        }
        i += 1;
    }
    proof {
        assert(m@.subrange(0, m@.len() as int) =~= m@);
    }
    out
}

/// The live configuration snapshot shared with request handling. Each
/// update rewrites one field whole and leaves the others untouched.
pub struct ConfigSnapshot {
    custom_mapping: Vec<(String, String)>,
    upstream_proxy: UpstreamProxyConfig,
    zai: ZaiConfig,
    security: SecurityConfig,
}

/// Ghost state of the snapshot.
#[verifier::ext_equal]
pub ghost struct ConfigView {
    pub custom_mapping: Seq<(Seq<char>, Seq<char>)>,
    pub upstream_proxy: UpstreamProxyConfig,
    pub zai: ZaiConfig,
    pub security: SecurityConfig,
}

impl View for ConfigSnapshot {
    type V = ConfigView;

    closed spec fn view(&self) -> ConfigView {
        ConfigView {
            custom_mapping: bindings_view(self.custom_mapping@),
            upstream_proxy: self.upstream_proxy,
            zai: self.zai,
            security: self.security,
        }
    }
}

impl ConfigSnapshot {
    /// The snapshot built once at startup from the loaded configuration.
    pub fn from_config(config: &ProxyConfig) -> (r: ConfigSnapshot)
        ensures
            r@.custom_mapping == bindings_view(config.custom_mapping@),
            r@.upstream_proxy == config.upstream_proxy,
            r@.zai == config.zai,
            r@.security == config.security,
    {
        ConfigSnapshot {
            custom_mapping: clone_mapping(&config.custom_mapping),
            upstream_proxy: clone_upstream(&config.upstream_proxy),
            zai: clone_zai(&config.zai),
            security: clone_security(&config.security),
        }
    }

    /// Replaces the whole model-name mapping from the configuration; the
    /// other fields are untouched.
    pub fn update_mapping(&mut self, config: &ProxyConfig)
        ensures
            final(self)@.custom_mapping == bindings_view(config.custom_mapping@),
            final(self)@.upstream_proxy == old(self)@.upstream_proxy,
            final(self)@.zai == old(self)@.zai,
            final(self)@.security == old(self)@.security,
    {
        self.custom_mapping = clone_mapping(&config.custom_mapping);
    }

    /// Replaces the whole upstream-proxy target; the other fields are
    /// untouched.
    pub fn update_proxy(&mut self, new_config: UpstreamProxyConfig)
        ensures
            final(self)@.upstream_proxy == new_config,
            final(self)@.custom_mapping == old(self)@.custom_mapping,
            final(self)@.zai == old(self)@.zai,
            final(self)@.security == old(self)@.security,
    {
        self.upstream_proxy = new_config;
    }

    /// Replaces the whole auth policy from the configuration; the other
    /// fields are untouched.
    pub fn update_security(&mut self, config: &ProxyConfig)
        ensures
            final(self)@.security == config.security,
            final(self)@.custom_mapping == old(self)@.custom_mapping,
            final(self)@.upstream_proxy == old(self)@.upstream_proxy,
            final(self)@.zai == old(self)@.zai,
    {
        self.security = clone_security(&config.security);
    }

    /// Replaces the whole vendor credentials from the configuration; the
    /// other fields are untouched.
    pub fn update_zai(&mut self, config: &ProxyConfig)
        ensures
            final(self)@.zai == config.zai,
            final(self)@.custom_mapping == old(self)@.custom_mapping,
            final(self)@.upstream_proxy == old(self)@.upstream_proxy,
            final(self)@.security == old(self)@.security,
    {
        self.zai = clone_zai(&config.zai);
    }

    /// The upstream name a model maps to, if the mapping holds it.
    pub fn mapped_model(&self, name: &String) -> (r: Option<String>)
        ensures
            match r {
                Some(m) => binding_value(self@.custom_mapping, name@) == Some(m@),
                None => binding_value(self@.custom_mapping, name@) is None,
            },
    {
        let mut j: usize = 0;
        while j < self.custom_mapping.len()
            invariant
                j <= self.custom_mapping@.len(),
                forall|t: int| 0 <= t < j ==> bindings_view(self.custom_mapping@)[t].0 != name@,
            decreases self.custom_mapping@.len() - j,
        {
            if self.custom_mapping[j].0.eq(name) {
                proof {
                    let bv = bindings_view(self.custom_mapping@);
                    assert(bv[j as int].0 == name@);
                    lemma_find_binding_from_props(bv, name@, 0);
                }
                return Some(self.custom_mapping[j].1.clone());
            }
            j += 1;
        }
        proof {
            lemma_find_binding_from_props(bindings_view(self.custom_mapping@), name@, 0);
        }
        None
    }

    /// Whether an offered key satisfies the auth policy: no key is needed,
    /// or the offered one matches.
    pub fn api_key_ok(&self, offered: Option<&String>) -> (r: bool)
        ensures
            r == (!self@.security.require_api_key || (offered matches Some(k) && k@
                == self@.security.api_key@)),
    {
        if !self.security.require_api_key {
            return true;
        }
        match offered {
            Some(k) => k.eq(&self.security.api_key),
            None => false,
        }
    }
}

} // verus!
