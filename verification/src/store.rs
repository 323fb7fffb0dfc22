//! Store of saved server profiles.
//!
//! A profile names one server: address, port, and the shared secret
//! its console asks for.  The store keeps profiles unique by name and
//! by `(ip, port)` endpoint, keeps an optional default selection that
//! always refers to a stored profile, and orders the list by
//! case-insensitive name so that what is persisted is deterministic.
//! Loading and saving the persisted file belongs to the layer around
//! the crate; every rule about the contents lives here.

use vstd::prelude::*;

verus! {

/// Errors of the profile store.  All are recoverable: the caller may
/// retry with different input.
#[derive(Clone, Copy, Debug, PartialEq, Eq, Structural)]
pub enum StoreError {
    /// A stored profile already carries this name.
    DuplicateNameError,
    /// A stored profile under another name already points at this
    /// `(ip, port)` endpoint.
    DuplicateEndpointError,
    /// No stored profile equals the one named.
    UnknownProfileError,
    /// No default profile is selected.
    NoDefaultProfileError,
}

/// One saved server profile.
#[derive(Debug)]
pub struct ServerConfig {
    pub name: String,
    pub ip: String,
    pub port: String,
    pub pass: String,
}

/// Structural equality of two profiles: all four fields agree.
pub open spec fn cfg_eq(a: ServerConfig, b: ServerConfig) -> bool {
    &&& a.name@ == b.name@
    &&& a.ip@ == b.ip@
    &&& a.port@ == b.port@
    &&& a.pass@ == b.pass@
}

impl ServerConfig {
    pub fn new(name: String, ip: String, port: String, pass: String) -> (config: Self)
        ensures
            config.name == name,
            config.ip == ip,
            config.port == port,
            config.pass == pass,
    {
        ServerConfig { name, ip, port, pass }
    }
}

impl PartialEq for ServerConfig {
    fn eq(&self, other: &Self) -> (r: bool) {
        self.name == other.name && self.ip == other.ip && self.port == other.port && self.pass
            == other.pass
    }
}

impl vstd::std_specs::cmp::PartialEqSpecImpl for ServerConfig {
    open spec fn obeys_eq_spec() -> bool {
        true
    }

    open spec fn eq_spec(&self, other: &Self) -> bool {
        cfg_eq(*self, *other)
    }
}

impl Clone for ServerConfig {
    fn clone(&self) -> (result: Self)
        ensures
            result == *self,
    {
        ServerConfig {
            name: self.name.clone(),
            ip: self.ip.clone(),
            port: self.port.clone(),
            pass: self.pass.clone(),
        }
    }
}

/// Whether some stored profile equals `target` field for field.
pub open spec fn has_profile(servers: Seq<ServerConfig>, target: ServerConfig) -> bool {
    exists|i: int| 0 <= i < servers.len() && cfg_eq(servers[i], target)
}

/// Whether the default selection equals `target`.
pub open spec fn default_matches(default: Option<ServerConfig>, target: ServerConfig) -> bool {
    match default {
        Some(d) => cfg_eq(d, target),
        None => false,
    }
}

/// The verdict on adding `candidate` to `servers`: scanning in store
/// order, the first profile with the same name refuses it as a
/// duplicate name, else the first with the same endpoint refuses it as
/// a duplicate endpoint; `None` admits it.
pub open spec fn add_conflict(servers: Seq<ServerConfig>, candidate: ServerConfig) -> Option<
    StoreError,
>
    decreases servers.len(),
{
    if servers.len() == 0 {
        None
    } else if servers[0].name@ == candidate.name@ {
        Some(StoreError::DuplicateNameError)
    } else if servers[0].ip@ == candidate.ip@ && servers[0].port@ == candidate.port@ {
        Some(StoreError::DuplicateEndpointError)
    } else {
        add_conflict(servers.drop_first(), candidate)
    }
}

/// The stored profiles with every one equal to `target` removed, in
/// their original order.
pub open spec fn without_profile(servers: Seq<ServerConfig>, target: ServerConfig) -> Seq<
    ServerConfig,
>
    decreases servers.len(),
{
    if servers.len() == 0 {
        Seq::empty()
    } else if cfg_eq(servers[0], target) {
        without_profile(servers.drop_first(), target)
    } else {
        seq![servers[0]] + without_profile(servers.drop_first(), target)
    }
}

/// Removal keeps the uniqueness invariants: it only drops entries, and
/// every survivor was stored before.
pub proof fn lemma_without_profile_wf(servers: Seq<ServerConfig>, target: ServerConfig)
    requires
        forall|i: int, j: int|
            0 <= i < j < servers.len() ==> servers[i].name@ != servers[j].name@,
        forall|i: int, j: int|
            0 <= i < j < servers.len() ==> !(servers[i].ip@ == servers[j].ip@ && servers[i].port@
                == servers[j].port@),
    ensures
        forall|i: int, j: int|
            0 <= i < j < without_profile(servers, target).len() ==> without_profile(
                servers,
                target,
            )[i].name@ != without_profile(servers, target)[j].name@,
        forall|i: int, j: int|
            0 <= i < j < without_profile(servers, target).len() ==> !(without_profile(
                servers,
                target,
            )[i].ip@ == without_profile(servers, target)[j].ip@ && without_profile(
                servers,
                target,
            )[i].port@ == without_profile(servers, target)[j].port@),
        forall|k: int|
            0 <= k < without_profile(servers, target).len() ==> exists|j: int|
                0 <= j < servers.len() && #[trigger] without_profile(servers, target)[k]
                    == servers[j],
    decreases servers.len(),
{
    if servers.len() > 0 {
        let rest = servers.drop_first();
        let w = without_profile(servers, target);
        let w_rest = without_profile(rest, target);
        lemma_without_profile_wf(rest, target);
        assert forall|k: int| 0 <= k < w.len() implies exists|j: int|
            0 <= j < servers.len() && #[trigger] w[k] == servers[j] by {
            if cfg_eq(servers[0], target) {
                let j = choose|j: int| 0 <= j < rest.len() && w_rest[k] == rest[j];
                assert(w[k] == servers[j + 1]);
            } else {
                if k == 0 {
                    assert(w[0] == servers[0]);
                } else {
                    let j = choose|j: int| 0 <= j < rest.len() && w_rest[k - 1] == rest[j];
                    assert(w[k] == servers[j + 1]);
                }
            }
        }
        assert forall|i: int, j: int| 0 <= i < j < w.len() implies w[i].name@ != w[j].name@ by {
            if cfg_eq(servers[0], target) {
                assert(w[i] == w_rest[i] && w[j] == w_rest[j]);
            } else {
                if i == 0 {
                    let b = choose|b: int| 0 <= b < rest.len() && w_rest[j - 1] == rest[b];
                    assert(w[j] == servers[b + 1]);
                    assert(servers[0].name@ != servers[b + 1].name@);
                } else {
                    assert(w[i] == w_rest[i - 1] && w[j] == w_rest[j - 1]);
                }
            }
        }
        assert forall|i: int, j: int|
            0 <= i < j < w.len() implies !(w[i].ip@ == w[j].ip@ && w[i].port@ == w[j].port@) by {
            if cfg_eq(servers[0], target) {
                assert(w[i] == w_rest[i] && w[j] == w_rest[j]);
            } else {
                if i == 0 {
                    let b = choose|b: int| 0 <= b < rest.len() && w_rest[j - 1] == rest[b];
                    assert(w[j] == servers[b + 1]);
                    assert(!(servers[0].ip@ == servers[b + 1].ip@ && servers[0].port@ == servers[b
                        + 1].port@));
                } else {
                    assert(w[i] == w_rest[i - 1] && w[j] == w_rest[j - 1]);
                }
            }
        }
    }
}

/// A stored profile that is not the removed one survives removal.
pub proof fn lemma_without_profile_keeps(
    servers: Seq<ServerConfig>,
    target: ServerConfig,
    keep: ServerConfig,
)
    requires
        has_profile(servers, keep),
        !cfg_eq(keep, target),
    ensures
        has_profile(without_profile(servers, target), keep),
    decreases servers.len(),
{
    let w = without_profile(servers, target);
    let k = choose|k: int| 0 <= k < servers.len() && cfg_eq(servers[k], keep);
    let rest = servers.drop_first();
    if k == 0 {
        if cfg_eq(servers[0], target) {
            assert(cfg_eq(keep, target));
        } else {
            assert(cfg_eq(w[0], keep));
        }
    } else {
        assert(cfg_eq(rest[k - 1], keep));
        assert(has_profile(rest, keep));
        lemma_without_profile_keeps(rest, target, keep);
        let m = choose|m: int|
            0 <= m < without_profile(rest, target).len() && cfg_eq(
                without_profile(rest, target)[m],
                keep,
            );
        if cfg_eq(servers[0], target) {
            assert(cfg_eq(w[m], keep));
        } else {
            assert(cfg_eq(w[m + 1], keep));
        }
    }
}

/// The lowercase form of a sequence of characters, as Unicode case
/// mapping defines it.  Named, not spelled out: the mapping depends on
/// the characters alone, and only the standard library computes it.
pub uninterp spec fn lowered(s: Seq<char>) -> Seq<char>;

/// Relies on str::to_lowercase: the lowercase form of a string,
/// depending on its characters alone.
#[verifier::external_body]
fn lowercase(s: &str) -> (result: String)
    ensures
        result@ == lowered(s@),
{
    s.to_lowercase()
}

/// Lexicographic order on byte sequences: the order Rust gives
/// strings, applied to their UTF-8 bytes.
pub open spec fn lex_le(a: Seq<u8>, b: Seq<u8>) -> bool
    decreases a.len(),
{
    if a.len() == 0 {
        true
    } else if b.len() == 0 {
        false
    } else if a[0] < b[0] {
        true
    } else if b[0] < a[0] {
        false
    } else {
        lex_le(a.drop_first(), b.drop_first())
    }
}

pub proof fn lemma_lex_le_total(a: Seq<u8>, b: Seq<u8>)
    ensures
        lex_le(a, b) || lex_le(b, a),
    decreases a.len(),
{
    if a.len() > 0 && b.len() > 0 && a[0] == b[0] {
        lemma_lex_le_total(a.drop_first(), b.drop_first());
    }
}

pub proof fn lemma_lex_le_trans(a: Seq<u8>, b: Seq<u8>, c: Seq<u8>)
    requires
        lex_le(a, b),
        lex_le(b, c),
    ensures
        lex_le(a, c),
    decreases a.len(),
{
    if a.len() > 0 && b.len() > 0 && c.len() > 0 && a[0] == b[0] && b[0] == c[0] {
        lemma_lex_le_trans(a.drop_first(), b.drop_first(), c.drop_first());
    }
}

/// The key the store orders a profile by: the UTF-8 bytes of its
/// lowercased name.
pub open spec fn ci_key(config: ServerConfig) -> Seq<u8> {
    vstd::utf8::encode_utf8(lowered(config.name@))
}

/// Case-insensitive order on profiles.
pub open spec fn ci_leq(a: ServerConfig, b: ServerConfig) -> bool {
    lex_le(ci_key(a), ci_key(b))
}

/// A profile list in case-insensitive ascending order of names.
pub open spec fn sorted_ci(servers: Seq<ServerConfig>) -> bool {
    forall|i: int, j: int| 0 <= i < j < servers.len() ==> ci_leq(servers[i], servers[j])
}

/// Compares two byte slices lexicographically.
fn bytes_le(a: &[u8], b: &[u8]) -> (r: bool)
    ensures
        r == lex_le(a@, b@),
{
    let a_len = a.len();
    let b_len = b.len();
    let mut i: usize = 0;
    proof {
        assert(a@.skip(0) =~= a@);
        assert(b@.skip(0) =~= b@);
    }
    while i < a_len && i < b_len && a[i] == b[i]
        invariant
            i <= a_len,
            i <= b_len,
            a_len == a@.len(),
            b_len == b@.len(),
            lex_le(a@, b@) == lex_le(a@.skip(i as int), b@.skip(i as int)),
        decreases a_len - i,
    {
        proof {
            assert(a@.skip(i as int).drop_first() =~= a@.skip(i as int + 1));
            assert(b@.skip(i as int).drop_first() =~= b@.skip(i as int + 1));
            assert(a@.skip(i as int)[0] == a@[i as int]);
            assert(b@.skip(i as int)[0] == b@[i as int]);
        }
        i += 1;
    }
    if i == a_len {
        true
    } else if i == b_len {
        false
    } else {
        proof {
            assert(a@.skip(i as int)[0] == a@[i as int]);
            assert(b@.skip(i as int)[0] == b@[i as int]);
        }
        a[i] < b[i]
    }
}

/// Compares two profiles in case-insensitive name order.
fn ci_leq_exec(a: &ServerConfig, b: &ServerConfig) -> (r: bool)
    ensures
        r == ci_leq(*a, *b),
{
    let la = lowercase(a.name.as_str());
    let lb = lowercase(b.name.as_str());
    bytes_le(la.as_str().as_bytes(), lb.as_str().as_bytes())
}

/// The configuration the tool persists: every saved profile, and the
/// profile used when the operator asks for the default.
#[derive(Debug)]
pub struct RconCliConfig {
    pub default_server: Option<ServerConfig>,
    pub servers: Vec<ServerConfig>,
}

impl RconCliConfig {
    /// The store's invariants: names are unique, endpoints are unique,
    /// and the default — when set — equals a stored profile.
    pub open spec fn wf(self) -> bool {
        &&& forall|i: int, j: int|
            0 <= i < j < self.servers@.len() ==> self.servers@[i].name@ != self.servers@[j].name@
        &&& forall|i: int, j: int|
            0 <= i < j < self.servers@.len() ==> !(self.servers@[i].ip@ == self.servers@[j].ip@
                && self.servers@[i].port@ == self.servers@[j].port@)
        &&& match self.default_server {
            Some(d) => has_profile(self.servers@, d),
            None => true,
        }
    }

    pub fn new(selected_server: Option<ServerConfig>, servers: Vec<ServerConfig>) -> (config: Self)
        ensures
            config.default_server == selected_server,
            config.servers == servers,
    {
        RconCliConfig { default_server: selected_server, servers }
    }

    /// The profile to use when the operator asks for the default.
    /// Refused with `NoDefaultProfileError` when none is selected; the
    /// caller decides what that means for it.
    pub fn get_default(&self) -> (result: Result<ServerConfig, StoreError>)
        ensures
            match self.default_server {
                Some(d) => match result {
                    Ok(chosen) => cfg_eq(chosen, d),
                    Err(_) => false,
                },
                None => result == Err::<ServerConfig, StoreError>(StoreError::NoDefaultProfileError),
            },
    {
        match &self.default_server {
            Some(d) => Ok(d.clone()),
            None => Err(StoreError::NoDefaultProfileError),
        }
    }

    /// Whether a stored profile equals `server` field for field.
    pub fn has_server(&self, server: &ServerConfig) -> (r: bool)
        ensures
            r == has_profile(self.servers@, *server),
    {
        let n = self.servers.len();
        let mut i: usize = 0;
        while i < n
            invariant
                i <= n,
                n == self.servers@.len(),
                forall|j: int| 0 <= j < i ==> !cfg_eq(self.servers@[j], *server),
            decreases n - i,
        {
            if self.servers[i] == *server {
                return true;
            }
            i += 1;
        }
        false
    }

    /// Adds a profile.  Refused when a stored profile already carries
    /// the name, or another name already claims the endpoint — the
    /// first conflict in store order decides; on success the profile is
    /// appended and the default is untouched.
    pub fn add_server(&mut self, server: ServerConfig) -> (result: Result<(), StoreError>)
        ensures
            match add_conflict(old(self).servers@, server) {
                None => result is Ok && final(self).servers@ == old(self).servers@.push(server)
                    && final(self).default_server == old(self).default_server,
                Some(e) => result == Err::<(), StoreError>(e) && *final(self) == *old(self),
            },
            old(self).wf() && result is Ok ==> final(self).wf(),
    {
        let n = self.servers.len();
        let mut i: usize = 0;
        proof {
            assert(self.servers@.skip(0) =~= self.servers@);
        }
        while i < n
            invariant
                i <= n,
                n == self.servers@.len(),
                add_conflict(self.servers@, server) == add_conflict(
                    self.servers@.skip(i as int),
                    server,
                ),
            decreases n - i,
        {
            proof {
                assert(self.servers@.skip(i as int).drop_first() =~= self.servers@.skip(
                    i as int + 1,
                ));
                assert(self.servers@.skip(i as int)[0] == self.servers@[i as int]);
            }
            if self.servers[i].name == server.name {
                return Err(StoreError::DuplicateNameError);
            }
            if self.servers[i].ip == server.ip && self.servers[i].port == server.port {
                return Err(StoreError::DuplicateEndpointError);
            }
            i += 1;
        }
        proof {
            assert(self.servers@.skip(n as int) =~= Seq::<ServerConfig>::empty());
            if old(self).wf() {
                lemma_conflict_free_means_fresh(self.servers@, server);
                assert forall|a: int, b: int|
                    0 <= a < b < self.servers@.push(server).len() implies self.servers@.push(
                    server,
                )[a].name@ != self.servers@.push(server)[b].name@ by {
                    if b < self.servers@.len() {
                        assert(self.servers@[a].name@ != self.servers@[b].name@);
                    }
                }
                assert forall|a: int, b: int|
                    0 <= a < b < self.servers@.push(server).len() implies !(self.servers@.push(
                    server,
                )[a].ip@ == self.servers@.push(server)[b].ip@ && self.servers@.push(
                    server,
                )[a].port@ == self.servers@.push(server)[b].port@) by {
                    if b < self.servers@.len() {
                        assert(!(self.servers@[a].ip@ == self.servers@[b].ip@
                            && self.servers@[a].port@ == self.servers@[b].port@));
                    }
                }
                match old(self).default_server {
                    Some(d) => {
                        let w = choose|k: int|
                            0 <= k < old(self).servers@.len() && cfg_eq(old(self).servers@[k], d);
                        assert(cfg_eq(self.servers@.push(server)[w], d));
                    },
                    None => {},
                }
            }
        }
        self.servers.push(server);
        Ok(())
    }

    /// Removes every stored profile equal to `server` field for field;
    /// absent profiles make it a no-op, not an error.  When the removed
    /// profile was the default, the default selection is cleared.
    pub fn remove_server(&mut self, server: ServerConfig) -> (result: ())
        ensures
            final(self).servers@ == without_profile(old(self).servers@, server),
            default_matches(old(self).default_server, server) ==> final(self).default_server
                is None,
            !default_matches(old(self).default_server, server) ==> final(self).default_server
                == old(self).default_server,
            old(self).wf() ==> final(self).wf(),
    {
        let n = self.servers.len();
        let mut kept: Vec<ServerConfig> = Vec::new();
        let mut i: usize = 0;
        proof {
            assert(self.servers@.skip(0) =~= self.servers@);
        }
        while i < n
            invariant
                i <= n,
                n == self.servers@.len(),
                without_profile(self.servers@, server) == kept@ + without_profile(
                    self.servers@.skip(i as int),
                    server,
                ),
            decreases n - i,
        {
            proof {
                assert(self.servers@.skip(i as int).drop_first() =~= self.servers@.skip(
                    i as int + 1,
                ));
                assert(self.servers@.skip(i as int)[0] == self.servers@[i as int]);
            }
            if !(self.servers[i] == server) {
                let copy = self.servers[i].clone();
                let ghost kept0 = kept@;
                kept.push(copy);
                proof {
                    assert(kept@ =~= kept0 + seq![self.servers@[i as int]]);
                    assert(kept0 + (seq![self.servers@[i as int]] + without_profile(
                        self.servers@.skip(i as int + 1),
                        server,
                    )) =~= kept@ + without_profile(self.servers@.skip(i as int + 1), server));
                }
            }
            i += 1;
        }
        proof {
            assert(self.servers@.skip(n as int) =~= Seq::<ServerConfig>::empty());
            assert(kept@ + Seq::<ServerConfig>::empty() =~= kept@);
            if old(self).wf() {
                lemma_without_profile_wf(self.servers@, server);
            }
        }
        let clear_default = match &self.default_server {
            Some(d) => *d == server,
            None => false,
        };
        let ghost old_servers = self.servers@;
        self.servers = kept;
        if clear_default {
            self.default_server = None;
        }
        proof {
            if old(self).wf() {
                match &self.default_server {
                    Some(d) => {
                        lemma_without_profile_keeps(old_servers, server, *d);
                    },
                    None => {},
                }
            }
        }
    }

    /// Empties the store: no profiles, no default.
    pub fn clear(&mut self)
        ensures
            final(self).servers@.len() == 0,
            final(self).default_server is None,
            final(self).wf(),
    {
        self.servers.clear();
        self.default_server = None;
    }

    /// Orders the stored profiles by case-insensitive name, ascending.
    /// This is the canonical order of the persisted file, so saving
    /// after every mutation yields deterministic output.  The profiles
    /// themselves and the default selection are untouched.
    pub fn order_servers(&mut self)
        ensures
            final(self).servers@.to_multiset() == old(self).servers@.to_multiset(),
            sorted_ci(final(self).servers@),
            final(self).default_server == old(self).default_server,
            old(self).wf() ==> final(self).wf(),
    {
        broadcast use vstd::seq_lib::group_to_multiset_ensures;

        let n = self.servers.len();
        let mut ordered: Vec<ServerConfig> = Vec::new();
        let mut i: usize = 0;
        proof {
            assert(Seq::<ServerConfig>::empty().to_multiset() =~= self.servers@.take(
                0,
            ).to_multiset());
        }
        while i < n
            invariant
                i <= n,
                n == self.servers@.len(),
                ordered@.to_multiset() == self.servers@.take(i as int).to_multiset(),
                sorted_ci(ordered@),
            decreases n - i,
        {
            let item = self.servers[i].clone();
            let pos = insert_pos(&ordered, &item);
            let ghost before = ordered@;
            ordered.insert(pos, item);
            proof {
                assert(self.servers@.take(i as int + 1) =~= self.servers@.take(i as int).push(
                    self.servers@[i as int],
                ));
                assert(ordered@ == before.insert(pos as int, item));
                vstd::seq_lib::to_multiset_insert(before, pos as int, item);
                vstd::seq_lib::to_multiset_build(
                    self.servers@.take(i as int),
                    self.servers@[i as int],
                );
                assert(ordered@.to_multiset() =~= self.servers@.take(i as int + 1).to_multiset());
                assert forall|p: int, q: int|
                    0 <= p < q < ordered@.len() implies ci_leq(ordered@[p], ordered@[q]) by {
                    if q < pos {
                        assert(ordered@[p] == before[p] && ordered@[q] == before[q]);
                    } else if p < pos && q == pos {
                        assert(ordered@[p] == before[p]);
                        assert(ci_leq(before[p], item));
                    } else if p < pos && q > pos {
                        assert(ordered@[p] == before[p] && ordered@[q] == before[q - 1]);
                        assert(ci_leq(before[p], before[q - 1]));
                    } else if p == pos {
                        assert(ordered@[q] == before[q - 1]);
                        lemma_lex_le_total(ci_key(item), ci_key(before[pos as int]));
                        if q - 1 > pos {
                            assert(ci_leq(before[pos as int], before[q - 1]));
                            lemma_lex_le_trans(
                                ci_key(item),
                                ci_key(before[pos as int]),
                                ci_key(before[q - 1]),
                            );
                        }
                    } else {
                        assert(ordered@[p] == before[p - 1] && ordered@[q] == before[q - 1]);
                        assert(ci_leq(before[p - 1], before[q - 1]));
                    }
                }
            }
            i += 1;
        }
        proof {
            assert(self.servers@.take(n as int) =~= self.servers@);
        }
        let ghost old_servers = self.servers@;
        self.servers = ordered;
        proof {
            if old(self).wf() {
                lemma_permutation_keeps_uniqueness(old_servers, self.servers@);
                match &self.default_server {
                    Some(d) => {
                        lemma_permutation_keeps_profile(old_servers, self.servers@, *d);
                    },
                    None => {},
                }
            }
        }
    }

    /// Selects a stored profile as the default.  Refused with
    /// `UnknownProfileError` when no stored profile equals `server`;
    /// the stored profiles are never changed.
    pub fn set_default_server(&mut self, server: ServerConfig) -> (result: Result<(), StoreError>)
        ensures
            final(self).servers == old(self).servers,
            has_profile(old(self).servers@, server) ==> result is Ok && final(self).default_server
                == Some(server),
            !has_profile(old(self).servers@, server) ==> result == Err::<(), StoreError>(
                StoreError::UnknownProfileError,
            ) && *final(self) == *old(self),
            old(self).wf() ==> final(self).wf(),
    {
        if self.has_server(&server) {
            self.default_server = Some(server);
            Ok(())
        } else {
            Err(StoreError::UnknownProfileError)
        }
    }
}

/// The position at which `item` belongs in the sorted `list`: after
/// every entry that orders at-or-before it, before the first that does
/// not.
fn insert_pos(list: &Vec<ServerConfig>, item: &ServerConfig) -> (pos: usize)
    ensures
        pos <= list@.len(),
        forall|k: int| 0 <= k < pos ==> ci_leq(list@[k], *item),
        pos < list@.len() ==> !ci_leq(list@[pos as int], *item),
{
    let m = list.len();
    let mut j: usize = 0;
    while j < m
        invariant
            j <= m,
            m == list@.len(),
            forall|k: int| 0 <= k < j ==> ci_leq(list@[k], *item),
        decreases m - j,
    {
        if !ci_leq_exec(&list[j], item) {
            return j;
        }
        j += 1;
    }
    j
}

/// Adding a profile whose name is already stored is refused as a
/// duplicate name, whatever its other fields — provided no
/// earlier-stored entry already claims its endpoint, which the scan
/// order reports first.
pub proof fn lemma_duplicate_name_rejected(
    servers: Seq<ServerConfig>,
    first: ServerConfig,
    second: ServerConfig,
)
    requires
        add_conflict(servers, first) is None,
        second.name@ == first.name@,
        forall|i: int|
            0 <= i < servers.len() ==> !(servers[i].ip@ == second.ip@ && servers[i].port@
                == second.port@),
    ensures
        add_conflict(servers.push(first), second) == Some(StoreError::DuplicateNameError),
    decreases servers.len(),
{
    lemma_conflict_free_means_fresh(servers, first);
    if servers.len() == 0 {
        assert(servers.push(first)[0] == first);
        assert(servers.push(first).len() == 1);
    } else {
        assert(servers.push(first).drop_first() =~= servers.drop_first().push(first));
        assert forall|i: int|
            0 <= i < servers.drop_first().len() implies !(servers.drop_first()[i].ip@
            == second.ip@ && servers.drop_first()[i].port@ == second.port@) by {
            assert(servers.drop_first()[i] == servers[i + 1]);
        }
        lemma_duplicate_name_rejected(servers.drop_first(), first, second);
        assert(servers.push(first)[0] == servers[0]);
    }
}

/// Adding a profile under a fresh name but an already-stored endpoint
/// is refused as a duplicate endpoint.
pub proof fn lemma_duplicate_endpoint_rejected(
    servers: Seq<ServerConfig>,
    first: ServerConfig,
    second: ServerConfig,
)
    requires
        add_conflict(servers, first) is None,
        second.ip@ == first.ip@,
        second.port@ == first.port@,
        second.name@ != first.name@,
        forall|i: int| 0 <= i < servers.len() ==> servers[i].name@ != second.name@,
    ensures
        add_conflict(servers.push(first), second) == Some(StoreError::DuplicateEndpointError),
    decreases servers.len(),
{
    lemma_conflict_free_means_fresh(servers, first);
    if servers.len() == 0 {
        assert(servers.push(first)[0] == first);
        assert(servers.push(first).len() == 1);
    } else {
        assert(servers.push(first).drop_first() =~= servers.drop_first().push(first));
        assert forall|i: int|
            0 <= i < servers.drop_first().len() implies servers.drop_first()[i].name@
            != second.name@ by {
            assert(servers.drop_first()[i] == servers[i + 1]);
        }
        lemma_duplicate_endpoint_rejected(servers.drop_first(), first, second);
        assert(servers.push(first)[0] == servers[0]);
    }
}

/// A list with the same profiles keeps unique names and endpoints.
pub proof fn lemma_permutation_keeps_uniqueness(a: Seq<ServerConfig>, b: Seq<ServerConfig>)
    requires
        a.to_multiset() == b.to_multiset(),
        forall|i: int, j: int| 0 <= i < j < a.len() ==> a[i].name@ != a[j].name@,
        forall|i: int, j: int|
            0 <= i < j < a.len() ==> !(a[i].ip@ == a[j].ip@ && a[i].port@ == a[j].port@),
    ensures
        forall|i: int, j: int| 0 <= i < j < b.len() ==> b[i].name@ != b[j].name@,
        forall|i: int, j: int|
            0 <= i < j < b.len() ==> !(b[i].ip@ == b[j].ip@ && b[i].port@ == b[j].port@),
{
    broadcast use vstd::seq_lib::group_to_multiset_ensures;

    assert forall|i: int, j: int|
        0 <= i < a.len() && 0 <= j < a.len() && i != j implies a[i] != a[j] by {
        if i < j {
            assert(a[i].name@ != a[j].name@);
        } else {
            assert(a[j].name@ != a[i].name@);
        }
    }
    assert(a.no_duplicates());
    a.lemma_multiset_has_no_duplicates();
    b.lemma_multiset_has_no_duplicates_conv();
    assert forall|i: int, j: int| 0 <= i < j < b.len() implies b[i].name@ != b[j].name@ by {
        if b[i].name@ == b[j].name@ {
            assert(b[i] != b[j]);
            assert(b.contains(b[i]) && b.contains(b[j]));
            assert(b.to_multiset().count(b[i]) > 0 && b.to_multiset().count(b[j]) > 0);
            assert(a.to_multiset().count(b[i]) > 0 && a.to_multiset().count(b[j]) > 0);
            assert(a.contains(b[i]) && a.contains(b[j]));
            let ia = choose|k: int| 0 <= k < a.len() && a[k] == b[i];
            let ja = choose|k: int| 0 <= k < a.len() && a[k] == b[j];
            assert(ia != ja);
            assert(a[ia].name@ != a[ja].name@);
        }
    }
    assert forall|i: int, j: int|
        0 <= i < j < b.len() implies !(b[i].ip@ == b[j].ip@ && b[i].port@ == b[j].port@) by {
        if b[i].ip@ == b[j].ip@ && b[i].port@ == b[j].port@ {
            assert(b[i] != b[j]);
            assert(b.contains(b[i]) && b.contains(b[j]));
            assert(b.to_multiset().count(b[i]) > 0 && b.to_multiset().count(b[j]) > 0);
            assert(a.to_multiset().count(b[i]) > 0 && a.to_multiset().count(b[j]) > 0);
            assert(a.contains(b[i]) && a.contains(b[j]));
            let ia = choose|k: int| 0 <= k < a.len() && a[k] == b[i];
            let ja = choose|k: int| 0 <= k < a.len() && a[k] == b[j];
            assert(ia != ja);
            assert(!(a[ia].ip@ == a[ja].ip@ && a[ia].port@ == a[ja].port@));
        }
    }
}

/// A list with the same profiles keeps every stored profile.
pub proof fn lemma_permutation_keeps_profile(
    a: Seq<ServerConfig>,
    b: Seq<ServerConfig>,
    keep: ServerConfig,
)
    requires
        a.to_multiset() == b.to_multiset(),
        has_profile(a, keep),
    ensures
        has_profile(b, keep),
{
    broadcast use vstd::seq_lib::group_to_multiset_ensures;

    let w = choose|k: int| 0 <= k < a.len() && cfg_eq(a[k], keep);
    assert(a.contains(a[w]));
    assert(a.to_multiset().count(a[w]) > 0);
    assert(b.to_multiset().count(a[w]) > 0);
    assert(b.contains(a[w]));
    let m = choose|k: int| 0 <= k < b.len() && b[k] == a[w];
    assert(cfg_eq(b[m], keep));
}

/// A candidate that `add_conflict` admits shares its name with no
/// stored profile and its endpoint with none.
pub proof fn lemma_conflict_free_means_fresh(servers: Seq<ServerConfig>, candidate: ServerConfig)
    requires
        add_conflict(servers, candidate) is None,
    ensures
        forall|i: int| 0 <= i < servers.len() ==> servers[i].name@ != candidate.name@,
        forall|i: int|
            0 <= i < servers.len() ==> !(servers[i].ip@ == candidate.ip@ && servers[i].port@
                == candidate.port@),
    decreases servers.len(),
{
    if servers.len() > 0 {
        lemma_conflict_free_means_fresh(servers.drop_first(), candidate);
        assert forall|i: int| 0 <= i < servers.len() implies servers[i].name@
            != candidate.name@ by {
            if i > 0 {
                assert(servers[i] == servers.drop_first()[i - 1]);
            }
        }
        assert forall|i: int|
            0 <= i < servers.len() implies !(servers[i].ip@ == candidate.ip@ && servers[i].port@
            == candidate.port@) by {
            if i > 0 {
                assert(servers[i] == servers.drop_first()[i - 1]);
            }
        }
    }
}

} // verus!
