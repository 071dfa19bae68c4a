//! Cross-cutting request concerns: CORS, security headers, rate limiting.

use crate::http::{Header, header_texts, lemma_header_push};
use crate::manifest::{CorsConfig, SecurityHeaders};
use crate::table::Table;
use crate::text::{cat3, decimal, decimal_text, holds, join, joined, texts};
use vstd::prelude::*;
use vstd::string::*;
use vstd::utf8::encode_utf8;

verus! {

/// Cross-origin rules.
#[derive(Debug)]
pub struct Cors {
    pub cfg: CorsConfig,
}

/// Whether an origin is one of those allowed.
pub open spec fn origin_ok(c: CorsConfig, origin: Seq<char>) -> bool {
    texts(c.allow_origins@).contains("*"@) || texts(c.allow_origins@).contains(origin)
}

/// The headers that tell an allowed origin so. The concrete origin is echoed
/// whenever credentials are in play, and `Vary` keeps caches from serving one
/// origin's response to another.
pub open spec fn allowed_headers(c: CorsConfig, origin: Seq<char>) -> Seq<Header> {
    let first = if c.allow_credentials {
        seq![("access-control-allow-origin"@, origin), ("access-control-allow-credentials"@, "true"@)]
    } else if texts(c.allow_origins@).contains("*"@) {
        seq![("access-control-allow-origin"@, "*"@)]
    } else {
        seq![("access-control-allow-origin"@, origin)]
    };
    let varied = first.push(("vary"@, "Origin"@));
    if c.expose_headers@.len() > 0 {
        varied.push(("access-control-expose-headers"@, joined(texts(c.expose_headers@), ", "@)))
    } else {
        varied
    }
}

/// The headers of a normal response.
pub open spec fn cors_headers(c: CorsConfig, origin: Option<Seq<char>>) -> Seq<Header> {
    match origin {
        Some(o) => if origin_ok(c, o) {
            allowed_headers(c, o)
        } else {
            Seq::empty()
        },
        None => Seq::empty(),
    }
}

/// The headers of a preflight response, where the origin is allowed.
pub open spec fn preflight_headers(c: CorsConfig, origin: Option<Seq<char>>) -> Option<Seq<Header>> {
    match origin {
        Some(o) => if origin_ok(c, o) {
            Some(
                allowed_headers(c, o).push(
                    ("access-control-allow-methods"@, joined(texts(c.allow_methods@), ", "@)),
                ).push(("access-control-allow-headers"@, joined(texts(c.allow_headers@), ", "@))).push(
                    ("access-control-max-age"@, decimal(c.max_age_secs as nat)),
                ),
            )
        } else {
            None
        },
        None => None,
    }
}

/// The text of an origin that may be absent.
pub open spec fn origin_text(origin: Option<&str>) -> Option<Seq<char>> {
    match origin {
        Some(o) => Some(o@),
        None => None,
    }
}

fn add(out: &mut Vec<(String, String)>, name: &str, value: &str)
    ensures
        header_texts(final(out)@) == header_texts(old(out)@).push((name@, value@)),
{
    let h = (name.to_owned(), value.to_owned());
    proof {
        lemma_header_push(out@, h);
    }
    out.push(h);
}

impl Cors {
    pub fn new(cfg: CorsConfig) -> (r: Cors)
        ensures
            r.cfg == cfg,
    {
        Cors { cfg }
    }

    /// Whether an origin is one of those allowed.
    pub fn origin_allowed(&self, origin: &str) -> (r: bool)
        ensures
            r == origin_ok(self.cfg, origin@),
    {
        holds(&self.cfg.allow_origins, "*") || holds(&self.cfg.allow_origins, origin)
    }

    /// Headers to attach to a normal (non-preflight) response.
    pub fn headers_for(&self, request_origin: Option<&str>) -> (r: Vec<(String, String)>)
        ensures
            header_texts(r@) == cors_headers(self.cfg, origin_text(request_origin)),
    {
        let mut out: Vec<(String, String)> = Vec::new();
        assert(header_texts(out@) =~= Seq::<Header>::empty());
        let origin = match request_origin {
            Some(o) => o,
            None => {
                return out;
            },
        };
        if !self.origin_allowed(origin) {
            return out;
        }
        if self.cfg.allow_credentials {
            self::add(&mut out, "access-control-allow-origin", origin);
            self::add(&mut out, "access-control-allow-credentials", "true");
            assert(header_texts(out@) =~= seq![
                ("access-control-allow-origin"@, origin@),
                ("access-control-allow-credentials"@, "true"@),
            ]);
        } else if holds(&self.cfg.allow_origins, "*") {
            self::add(&mut out, "access-control-allow-origin", "*");
            assert(header_texts(out@) =~= seq![("access-control-allow-origin"@, "*"@)]);
        } else {
            self::add(&mut out, "access-control-allow-origin", origin);
            assert(header_texts(out@) =~= seq![("access-control-allow-origin"@, origin@)]);
        }
        self::add(&mut out, "vary", "Origin");
        if self.cfg.expose_headers.len() > 0 {
            let names = join(&self.cfg.expose_headers, ", ");
            self::add(&mut out, "access-control-expose-headers", names.as_str());
        }
        out
    }

    /// Full preflight response headers, or `None` if this isn't a preflight we
    /// allow.
    pub fn preflight(&self, origin: Option<&str>) -> (r: Option<Vec<(String, String)>>)
        ensures
            match r {
                Some(h) => preflight_headers(self.cfg, origin_text(origin)) == Some(header_texts(h@)),
                None => preflight_headers(self.cfg, origin_text(origin)) is None,
            },
    {
        let o = match origin {
            Some(o) => o,
            None => {
                return None;
            },
        };
        if !self.origin_allowed(o) {
            return None;
        }
        let mut out = self.headers_for(Some(o));
        let methods = join(&self.cfg.allow_methods, ", ");
        self::add(&mut out, "access-control-allow-methods", methods.as_str());
        let headers = join(&self.cfg.allow_headers, ", ");
        self::add(&mut out, "access-control-allow-headers", headers.as_str());
        let age = decimal_text(self.cfg.max_age_secs);
        self::add(&mut out, "access-control-max-age", age.as_str());
        Some(out)
    }
}

/// An origin that is not allowed is told nothing.
pub proof fn law_disallowed_origin_gets_no_headers(c: CorsConfig, origin: Seq<char>)
    requires
        !origin_ok(c, origin),
    ensures
        cors_headers(c, Some(origin)).len() == 0,
        preflight_headers(c, Some(origin)) is None,
{
}

/// Where credentials are allowed, the origin that a response names is the one that
/// asked, never the wildcard.
pub proof fn law_credentialed_cors_echoes_the_origin(c: CorsConfig, origin: Seq<char>, i: int)
    requires
        c.allow_credentials,
        0 <= i < cors_headers(c, Some(origin)).len(),
        cors_headers(c, Some(origin))[i].0 == "access-control-allow-origin"@,
    ensures
        cors_headers(c, Some(origin))[i].1 == origin,
{
    reveal_strlit("access-control-allow-origin");
    reveal_strlit("access-control-allow-credentials");
    reveal_strlit("access-control-expose-headers");
    reveal_strlit("vary");
    assert("access-control-allow-credentials"@.len() != "access-control-allow-origin"@.len());
    assert("access-control-expose-headers"@.len() != "access-control-allow-origin"@.len());
    assert("vary"@.len() != "access-control-allow-origin"@.len());
}

/// A response that names an allowed origin varies by origin.
pub proof fn law_allowed_origin_is_varied(c: CorsConfig, origin: Seq<char>)
    requires
        origin_ok(c, origin),
    ensures
        cors_headers(c, Some(origin)).contains(("vary"@, "Origin"@)),
{
    let h = cors_headers(c, Some(origin));
    if c.allow_credentials {
        assert(h[2] == ("vary"@, "Origin"@));
    } else {
        assert(h[1] == ("vary"@, "Origin"@));
    }
}

/// The value of the transport security header.
pub open spec fn hsts_value(max_age: u64) -> Seq<char> {
    "max-age="@ + decimal(max_age as nat) + "; includeSubDomains"@
}

/// The headers applied to every response unless disabled. Transport security is
/// named only over TLS: over plaintext browsers ignore it.
pub open spec fn security_list(cfg: SecurityHeaders, is_https: bool) -> Seq<Header> {
    if !cfg.enabled {
        Seq::empty()
    } else {
        let base = seq![
            ("x-content-type-options"@, "nosniff"@),
            ("x-frame-options"@, cfg.frame_options@),
            ("referrer-policy"@, cfg.referrer_policy@),
            ("cross-origin-opener-policy"@, "same-origin"@),
        ];
        let with_csp = match cfg.content_security_policy {
            Some(csp) => base.push(("content-security-policy"@, csp@)),
            None => base,
        };
        if is_https && cfg.hsts_max_age_secs > 0 {
            with_csp.push(("strict-transport-security"@, hsts_value(cfg.hsts_max_age_secs)))
        } else {
            with_csp
        }
    }
}

/// Headers applied to every response unless explicitly disabled.
pub fn security_headers(cfg: &SecurityHeaders, is_https: bool) -> (r: Vec<(String, String)>)
    ensures
        header_texts(r@) == security_list(*cfg, is_https),
{
    let mut out: Vec<(String, String)> = Vec::new();
    assert(header_texts(out@) =~= Seq::<Header>::empty());
    if !cfg.enabled {
        return out;
    }
    self::add(&mut out, "x-content-type-options", "nosniff");
    self::add(&mut out, "x-frame-options", cfg.frame_options.as_str());
    self::add(&mut out, "referrer-policy", cfg.referrer_policy.as_str());
    self::add(&mut out, "cross-origin-opener-policy", "same-origin");
    assert(header_texts(out@) =~= seq![
        ("x-content-type-options"@, "nosniff"@),
        ("x-frame-options"@, cfg.frame_options@),
        ("referrer-policy"@, cfg.referrer_policy@),
        ("cross-origin-opener-policy"@, "same-origin"@),
    ]);
    if let Some(csp) = &cfg.content_security_policy {
        self::add(&mut out, "content-security-policy", csp.as_str());
    }
    if is_https && cfg.hsts_max_age_secs > 0 {
        let value = cat3("max-age=", decimal_text(cfg.hsts_max_age_secs).as_str(), "; includeSubDomains");
        self::add(&mut out, "strict-transport-security", value.as_str());
    }
    out
}

/// Transport security is announced over TLS and only there.
pub proof fn law_hsts_only_on_https(cfg: SecurityHeaders)
    requires
        cfg.enabled,
        cfg.hsts_max_age_secs > 0,
    ensures
        security_list(cfg, true).contains(("strict-transport-security"@, hsts_value(cfg.hsts_max_age_secs))),
        forall|i: int|
            0 <= i < security_list(cfg, false).len() ==> (#[trigger] security_list(cfg, false)[i]).0
                != "strict-transport-security"@,
{
    let tls = security_list(cfg, true);
    assert(tls[tls.len() - 1] == ("strict-transport-security"@, hsts_value(cfg.hsts_max_age_secs)));
    reveal_strlit("strict-transport-security");
    reveal_strlit("x-content-type-options");
    reveal_strlit("x-frame-options");
    reveal_strlit("referrer-policy");
    reveal_strlit("cross-origin-opener-policy");
    reveal_strlit("content-security-policy");
    assert("strict-transport-security"@.len() == 25);
    assert("x-content-type-options"@.len() == 22);
    assert("x-frame-options"@.len() == 15);
    assert("referrer-policy"@.len() == 15);
    assert("cross-origin-opener-policy"@.len() == 26);
    assert("content-security-policy"@.len() == 23);
}

/// An enabled configuration always forbids sniffing.
pub proof fn law_nosniff_is_always_present(cfg: SecurityHeaders, is_https: bool)
    requires
        cfg.enabled,
    ensures
        security_list(cfg, is_https).contains(("x-content-type-options"@, "nosniff"@)),
{
    assert(security_list(cfg, is_https)[0] == ("x-content-type-options"@, "nosniff"@));
}

/// What a rate limiter decided.
#[derive(Debug, Clone, Copy, PartialEq, Eq, Structural)]
pub struct RateDecision {
    pub allowed: bool,
    pub limit: u32,
    pub remaining: u32,
    pub retry_after_secs: u64,
}

/// How many shards the buckets are spread over.
pub const SHARDS: usize = 16;

/// The FNV-1a hash of the first `n` bytes.
pub open spec fn fnv1a(bytes: Seq<u8>, n: nat) -> u64
    decreases n,
{
    if n == 0 || n > bytes.len() {
        0xcbf2_9ce4_8422_2325
    } else {
        (fnv1a(bytes, (n - 1) as nat) ^ (bytes[n - 1] as u64)).wrapping_mul(0x1000_0000_01b3)
    }
}

/// The shard that holds the bucket of a key.
pub fn shard_for(key: &str) -> (r: usize)
    ensures
        r == (fnv1a(encode_utf8(key@), encode_utf8(key@).len()) as usize) % SHARDS,
        r < SHARDS,
{
    let bytes = key.as_bytes();
    let mut hash: u64 = 0xcbf2_9ce4_8422_2325;
    let mut i: usize = 0;
    while i < bytes.len()
        invariant
            i <= bytes@.len(),
            bytes@ == encode_utf8(key@),
            hash == fnv1a(bytes@, i as nat),
        decreases bytes.len() - i,
    {
        hash = (hash ^ (bytes[i] as u64)).wrapping_mul(0x1000_0000_01b3);
        i = i + 1;
    }
    (hash as usize) % SHARDS
}

/// A token bucket. The tokens are a floating-point number, carried as its bits.
#[derive(Debug, Clone, Copy, PartialEq, Eq, Structural)]
pub struct Bucket {
    pub tokens: u64,
    /// When the bucket was last drawn from, in nanoseconds of a clock that never
    /// goes back.
    pub last: u64,
}

/// The buckets of one shard, by key.
#[derive(Debug)]
pub struct Buckets {
    pub table: Table<Bucket>,
}

/// Whether a bucket was drawn from within the time after which it is dropped.
pub open spec fn is_live(b: Bucket, now: u64, idle: u64) -> bool {
    if now >= b.last {
        now - b.last < idle
    } else {
        0 < idle
    }
}

impl Bucket {
    /// Whether the bucket was drawn from within the time after which it is dropped.
    pub fn live(&self, now: u64, idle: u64) -> (r: bool)
        ensures
            r == is_live(*self, now, idle),
    {
        if now >= self.last {
            now - self.last < idle
        } else {
            0 < idle
        }
    }
}

impl View for Buckets {
    type V = Map<Seq<char>, Bucket>;

    open spec fn view(&self) -> Map<Seq<char>, Bucket> {
        self.table@
    }
}

impl Buckets {
    pub fn new() -> (r: Buckets)
        ensures
            r@ == Map::<Seq<char>, Bucket>::empty(),
    {
        Buckets { table: Table::new() }
    }

    /// The bucket of a key: the one that is there, unless it has been idle for too
    /// long, else a full one.
    pub fn draw(&self, key: &str, now: u64, idle: u64, full: u64) -> (r: Bucket)
        ensures
            r == if self@.contains_key(key@) && is_live(self@[key@], now, idle) {
                self@[key@]
            } else {
                (Bucket { tokens: full, last: now })
            },
    {
        match self.table.get(key) {
            Some(b) => if b.live(now, idle) {
                *b
            } else {
                Bucket { tokens: full, last: now }
            },
            None => Bucket { tokens: full, last: now },
        }
    }

    /// Records what is left in the bucket of a key, and drops the others that have
    /// been idle for too long.
    pub fn settle(&mut self, key: &str, bucket: Bucket, now: u64, idle: u64)
        ensures
            final(self)@ == Map::new(
                |k: Seq<char>|
                    k == key@ || (old(self)@.contains_key(k) && is_live(old(self)@[k], now, idle)),
                |k: Seq<char>|
                    if k == key@ {
                        bucket
                    } else {
                        old(self)@[k]
                    },
            ),
    {
        let ghost was = self.table@;
        let ghost pairs = self.table.pairs();
        let mut kept: Table<Bucket> = Table::new();
        let n: usize = self.table.len();
        proof {
            crate::table::lemma_table_pairs(pairs);
        }
        let mut i: usize = 0;
        while i < n
            invariant
                i <= n == pairs.len(),
                *self == *old(self),
                pairs == self.table.pairs(),
                was == self.table@,
                forall|j: int| 0 <= j < pairs.len() ==> was.contains_key((#[trigger] pairs[j]).0),
                forall|k: Seq<char>| #[trigger]
                    kept@.contains_key(k) ==> was.contains_key(k) && is_live(was[k], now, idle) && kept@[k]
                        == was[k],
                forall|j: int|
                    0 <= j < i && is_live(was[pairs[j].0], now, idle) ==> kept@.contains_key(
                        (#[trigger] pairs[j]).0,
                    ),
            decreases n - i,
        {
            let name = self.table.key_at(i);
            let b = *self.table.value_at(i);
            assert(pairs[i as int].0 == name@);
            if b.live(now, idle) {
                kept.insert(name, b);
            }
            i = i + 1;
        }
        kept.insert(key, bucket);
        self.table = kept;
        assert(self.table@ =~= Map::new(
            |k: Seq<char>|
                k == key@ || (old(self)@.contains_key(k) && is_live(old(self)@[k], now, idle)),
            |k: Seq<char>|
                if k == key@ {
                    bucket
                } else {
                    old(self)@[k]
                },
        ));
    }
}

/// An origin that is allowed is told so: by its own name where the origins are listed or
/// credentials are in play, and else by the star; credentials are allowed exactly where they
/// are configured to be, and the headers that may be read are those that are listed.
pub proof fn law_an_allowed_origin_is_told_so(c: CorsConfig, origin: Seq<char>)
    requires
        texts(c.allow_origins@).contains("*"@) || texts(c.allow_origins@).contains(origin),
    ensures
        ({
            let h = cors_headers(c, Some(origin));
            &&& origin_ok(c, origin)
            &&& c.allow_credentials || !texts(c.allow_origins@).contains("*"@) ==> h.contains(
                ("access-control-allow-origin"@, origin),
            )
            &&& !c.allow_credentials && texts(c.allow_origins@).contains("*"@) ==> h.contains(
                ("access-control-allow-origin"@, "*"@),
            )
            &&& c.allow_credentials ==> h.contains(("access-control-allow-credentials"@, "true"@))
            &&& h.contains(("vary"@, "Origin"@))
            &&& c.expose_headers@.len() > 0 ==> h.contains(
                ("access-control-expose-headers"@, joined(texts(c.expose_headers@), ", "@)),
            )
            &&& preflight_headers(c, Some(origin)) matches Some(p) && ({
                &&& h.is_prefix_of(p)
                &&& p.contains(("access-control-allow-methods"@, joined(texts(c.allow_methods@), ", "@)))
                &&& p.contains(("access-control-allow-headers"@, joined(texts(c.allow_headers@), ", "@)))
                &&& p.contains(("access-control-max-age"@, decimal(c.max_age_secs as nat)))
            })
        }),
        preflight_headers(c, None) is None,
        cors_headers(c, None).len() == 0,
{
    let h = cors_headers(c, Some(origin));
    let p = preflight_headers(c, Some(origin))->0;
    let n = h.len() as int;
    assert(h[0] == h.first());
    if c.allow_credentials {
        assert(h[0] == ("access-control-allow-origin"@, origin));
        assert(h[1] == ("access-control-allow-credentials"@, "true"@));
        assert(h[2] == ("vary"@, "Origin"@));
    } else {
        assert(h[1] == ("vary"@, "Origin"@));
    }
    if c.expose_headers@.len() > 0 {
        assert(h[n - 1] == ("access-control-expose-headers"@, joined(texts(c.expose_headers@), ", "@)));
    }
    assert(p.subrange(0, n) =~= h);
    assert(p[n] == ("access-control-allow-methods"@, joined(texts(c.allow_methods@), ", "@)));
    assert(p[n + 1] == ("access-control-allow-headers"@, joined(texts(c.allow_headers@), ", "@)));
    assert(p[n + 2] == ("access-control-max-age"@, decimal(c.max_age_secs as nat)));
}

/// The security headers say what is configured, where they are switched on, and nothing is
/// said where they are not.
pub proof fn law_the_security_headers_say_what_is_configured(cfg: SecurityHeaders, is_https: bool)
    ensures
        !cfg.enabled ==> security_list(cfg, is_https).len() == 0,
        cfg.enabled ==> ({
            let h = security_list(cfg, is_https);
            &&& h.contains(("x-content-type-options"@, "nosniff"@))
            &&& h.contains(("x-frame-options"@, cfg.frame_options@))
            &&& h.contains(("referrer-policy"@, cfg.referrer_policy@))
            &&& h.contains(("cross-origin-opener-policy"@, "same-origin"@))
            &&& cfg.content_security_policy matches Some(csp) ==> h.contains(("content-security-policy"@, csp@))
            &&& is_https && cfg.hsts_max_age_secs > 0 ==> h.contains(
                (
                    "strict-transport-security"@,
                    "max-age="@ + decimal(cfg.hsts_max_age_secs as nat) + "; includeSubDomains"@,
                ),
            )
        }),
{
    if cfg.enabled {
        let h = security_list(cfg, is_https);
        assert(h[0] == ("x-content-type-options"@, "nosniff"@));
        assert(h[1] == ("x-frame-options"@, cfg.frame_options@));
        assert(h[2] == ("referrer-policy"@, cfg.referrer_policy@));
        assert(h[3] == ("cross-origin-opener-policy"@, "same-origin"@));
        if let Some(csp) = cfg.content_security_policy {
            assert(h[4] == ("content-security-policy"@, csp@));
        }
        if is_https && cfg.hsts_max_age_secs > 0 {
            assert(h[h.len() - 1] == ("strict-transport-security"@, hsts_value(cfg.hsts_max_age_secs)));
        }
    }
}

/// A bucket is kept for as long as it is drawn from: it is dropped once it has stood idle for
/// the time that is allowed, and not before.
pub proof fn law_a_bucket_is_kept_while_it_is_drawn_from(b: Bucket, now: u64, idle: u64)
    requires
        now >= b.last,
    ensures
        is_live(b, now, idle) <==> now - b.last < idle,
{
}

/// A key is spread by each of its bytes in turn: what one byte more makes of a hash depends on
/// that byte and the hash before it alone.
pub proof fn law_a_hash_mixes_each_byte_in(bytes: Seq<u8>, last: u8)
    ensures
        fnv1a(Seq::empty(), 0) == 0xcbf2_9ce4_8422_2325u64,
        fnv1a(bytes.push(last), bytes.len() + 1) == (fnv1a(bytes, bytes.len()) ^ (last as u64)).wrapping_mul(
            0x1000_0000_01b3,
        ),
{
    lemma_hash_of_start(bytes, last, bytes.len());
}

proof fn lemma_hash_of_start(bytes: Seq<u8>, last: u8, n: nat)
    requires
        n <= bytes.len(),
    ensures
        fnv1a(bytes.push(last), n) == fnv1a(bytes, n),
    decreases n,
{
    if n > 0 {
        lemma_hash_of_start(bytes, last, (n - 1) as nat);
    }
}

} // verus!
