//! The relay: who is connected, which frames go where, and what ends a session.
//!
//! A session speaks one of two modes, chosen by its first frame.  An identity
//! session authenticates a node ID and routes by it.  A tag session registers
//! pair-scoped rendezvous tags and routes by them: no node ID and no signature
//! ever reach the relay on that path.
//!
//! Sessions are known here by a number.  The sockets, the outbound queues and the
//! byte budget belong to the caller.
use crate::bytes::to_vec;
use crate::crypto::{
    ed25519_accepts, fill_random, hex_digit, hex_text, issue_random_leaf, sha256, sha256_digest,
};
use crate::id::NodeId;
use crate::net::{IpAddr, SocketAddr};
use crate::rendezvous::Tag;
use crate::table::{place, Table};
use crate::text::{decimal, decimal_text, texts};
use crate::wire::{
    frame_bytes, frame_valid, parse_reflect_request, reflect_reply, reflect_reply_bytes,
    reflect_request_bytes, relay_auth_input, verify_relay_auth, Frame, CLOSE_REASON_MALFORMED,
    CLOSE_REASON_SUPERSEDED, IDLE_CLOSE_SECONDS,
};
use vstd::multiset::Multiset;
use vstd::prelude::*;
use vstd::seq_lib::*;
use vstd::string::*;

verus! {

/// A tag has two ends.
pub const MAX_TAG_HOLDERS: usize = 2;

// ---------------------------------------------------------------------------
// Certificates and URLs
// ---------------------------------------------------------------------------

/// The certificate a relay presents and its key.
#[derive(Debug)]
pub struct TlsMaterial {
    pub cert_der: Vec<u8>,
    pub key_der: Vec<u8>,
}

impl Clone for TlsMaterial {
    fn clone(&self) -> (r: Self)
        ensures
            r.cert_der@ == self.cert_der@,
            r.key_der@ == self.key_der@,
    {
        TlsMaterial {
            cert_der: to_vec(self.cert_der.as_slice()),
            key_der: to_vec(self.key_der.as_slice()),
        }
    }
}

/// The names a relay's own certificate carries: its hosts, or `localhost` when it
/// has none.
pub open spec fn certificate_names_of(hosts: Seq<Seq<char>>) -> Seq<Seq<char>> {
    if hosts.len() == 0 {
        seq!["localhost"@]
    } else {
        hosts
    }
}

/// The names a relay's own certificate carries.
pub fn certificate_names(hosts: &Vec<String>) -> (r: Vec<String>)
    ensures
        texts(r@) == certificate_names_of(texts(hosts@)),
{
    let mut names: Vec<String> = Vec::new();
    if hosts.len() == 0 {
        names.push("localhost".to_owned());
        assert(texts(names@) =~= certificate_names_of(texts(hosts@)));
        return names;
    }
    let mut i: usize = 0;
    while i < hosts.len()
        invariant
            i <= hosts.len(),
            names@.len() == i,
            forall|k: int| 0 <= k < i ==> (#[trigger] names@[k])@ == hosts@[k]@,
        decreases hosts.len() - i,
    {
        names.push(hosts[i].clone());
        i += 1;
    }
    assert(texts(names@) =~= texts(hosts@));
    names
}

/// Two lower-case digits for each byte.
pub fn hex_lower(bytes: &[u8]) -> (r: String)
    ensures
        r@ == hex_text(bytes@),
{
    let mut out = String::new();
    let mut i: usize = 0;
    while i < bytes.len()
        invariant
            i <= bytes.len(),
            out@ == hex_text(bytes@).subrange(0, 2 * i),
        decreases bytes.len() - i,
    {
        let byte: u8 = bytes[i];
        out.push(hex_char(byte / 16));
        out.push(hex_char(byte % 16));
        proof {
            assert((2 * i) / 2 == i && (2 * i) % 2 == 0);
            assert((2 * i + 1) / 2 == i && (2 * i + 1) % 2 == 1);
            assert(out@ =~= hex_text(bytes@).subrange(0, 2 * (i + 1)));
        }
        i += 1;
    }
    assert(out@ =~= hex_text(bytes@));
    out
}

fn hex_char(value: u8) -> (r: char)
    requires
        value < 16,
    ensures
        r == hex_digit(value as int),
{
    let code: u8 = if value < 10 {
        0x30 + value
    } else {
        0x57 + value
    };
    code as char
}

impl TlsMaterial {
    /// A throwaway self-signed leaf for these hosts; `None` when the certificate
    /// library refuses a name, as it does one that is not ASCII.  Which key comes out is
    /// chance.
    pub fn self_signed(hosts: &Vec<String>) -> (r: Option<TlsMaterial>)
        ensures
            r is Some ==> forall|i: int|
                0 <= i < hosts@.len() ==> vstd::utf8::is_ascii_chars((#[trigger] hosts@[i])@),
    {
        let names = certificate_names(hosts);
        proof {
            assert forall|i: int| 0 <= i < hosts@.len() implies (#[trigger] hosts@[i])@
                == names@[i]@ by {
                assert(texts(hosts@)[i] == texts(names@)[i]);
            }
        }
        TlsMaterial::of_leaf(issue_random_leaf(names))
    }

    /// What a leaf and its key serve as: the pair in DER, where one was issued.
    pub fn of_leaf(leaf: Option<(Vec<u8>, Vec<u8>)>) -> (r: Option<TlsMaterial>)
        ensures
            match leaf {
                Some((cert_der, key_der)) => r matches Some(material) && material.cert_der@
                    == cert_der@ && material.key_der@ == key_der@,
                None => r is None,
            },
    {
        match leaf {
            Some((cert_der, key_der)) => Some(TlsMaterial { cert_der, key_der }),
            None => None,
        }
    }

    /// SHA-256 over the DER leaf in hexadecimal, which is what a client pins.
    pub fn fingerprint(&self) -> (r: String)
        ensures
            r@ == hex_text(sha256_digest(self.cert_der@)),
    {
        hex_lower(&sha256(self.cert_der.as_slice()))
    }
}

/// Where a running relay listens.
#[derive(Debug)]
pub struct RelayHandle {
    pub ws_addr: SocketAddr,
    pub udp_addr: SocketAddr,
    pub tls_fingerprint: Option<String>,
}

/// `ws://host:port/link`, or `wss://` with a certificate.
pub open spec fn relay_url(tls: bool, host: Seq<char>, port: u16) -> Seq<char> {
    (if tls {
        "wss"@
    } else {
        "ws"@
    }) + "://"@ + host + ":"@ + decimal_text(port as nat) + "/link"@
}

impl RelayHandle {
    /// The `ws://` or `wss://` URL a node should dial.
    pub fn url(&self, host: &str) -> (r: String)
        ensures
            r@ == relay_url(self.tls_fingerprint is Some, host@, self.ws_addr.port),
    {
        let scheme = if self.tls_fingerprint.is_some() {
            "wss"
        } else {
            "ws"
        };
        scheme.to_owned().concat("://").concat(host).concat(":").concat(
            decimal(self.ws_addr.port as u64).as_str(),
        ).concat("/link")
    }
}

/// The reply to a reflector datagram from `from`; `None` for anything that is not
/// a request.
pub fn reflector_answer(datagram: &[u8], from: SocketAddr) -> (r: Option<[u8; 39]>)
    ensures
        r matches Some(reply) ==> exists|nonce: [u8; 16]|
            datagram@ == #[trigger] reflect_request_bytes(nonce@) && reply@
                == reflect_reply_bytes(nonce@, crate::card::mapped_octets(from.ip), from.port),
        r is None ==> forall|nonce: [u8; 16]|
            datagram@ != #[trigger] reflect_request_bytes(nonce@),
{
    match parse_reflect_request(datagram) {
        Some(nonce) => Some(reflect_reply(&nonce, from)),
        None => None,
    }
}

/// A fresh challenge for a new session.
pub fn fresh_challenge() -> (r: [u8; 32]) {
    let mut challenge = [0u8; 32];
    fill_random(&mut challenge);
    challenge
}

/// A fresh routing token for a welcome.
pub fn fresh_token() -> (r: [u8; 16]) {
    let mut token = [0u8; 16];
    fill_random(&mut token);
    token
}

// ---------------------------------------------------------------------------
// The registry
// ---------------------------------------------------------------------------

/// The registry as mathematics.
#[verifier::ext_equal]
pub struct RegistryView {
    /// Identity sessions: node to session.
    pub sessions: Map<NodeId, u64>,
    /// Tag sessions: tag to sessions, the oldest first.
    pub tags: Map<Tag, Seq<u64>>,
    /// The source address of every connection, from accept to end.
    pub live: Multiset<IpAddr>,
}

/// Who is connected.
pub struct Registry {
    sessions: Table<NodeId, u64>,
    tags: Table<Tag, Vec<u64>>,
    /// One entry per connection, counted from accept so unauthenticated
    /// handshakes cannot slip under the cap.
    admitted: Vec<IpAddr>,
}

spec fn holder_views(tags: Map<Tag, Vec<u64>>) -> Map<Tag, Seq<u64>> {
    tags.map_values(|holders: Vec<u64>| holders@)
}

impl View for Registry {
    type V = RegistryView;

    closed spec fn view(&self) -> RegistryView {
        RegistryView {
            sessions: self.sessions.map(),
            tags: holder_views(self.tags.map()),
            live: self.admitted@.to_multiset(),
        }
    }
}

/// The sessions that hold a tag, the oldest first.
pub open spec fn holders(tags: Map<Tag, Seq<u64>>, tag: Tag) -> Seq<u64> {
    if tags.contains_key(tag) {
        tags[tag]
    } else {
        Seq::empty()
    }
}

/// A list without a session.
pub open spec fn without(list: Seq<u64>, session: u64) -> Seq<u64> {
    list.filter(|id: u64| id != session)
}

/// A session gives up one tag.
pub open spec fn leave(tags: Map<Tag, Seq<u64>>, session: u64, tag: Tag) -> Map<Tag, Seq<u64>> {
    let rest = without(holders(tags, tag), session);
    if rest.len() == 0 {
        tags.remove(tag)
    } else {
        tags.insert(tag, rest)
    }
}

/// A session gives up tags one after the other.
pub open spec fn leave_all(tags: Map<Tag, Seq<u64>>, session: u64, list: Seq<Tag>) -> Map<
    Tag,
    Seq<u64>,
>
    decreases list.len(),
{
    if list.len() == 0 {
        tags
    } else {
        leave(leave_all(tags, session, list.drop_last()), session, list.last())
    }
}

/// A session takes up one tag.  A tag has two ends: a third holder takes the place
/// of the oldest.
pub open spec fn join(tags: Map<Tag, Seq<u64>>, session: u64, tag: Tag) -> Map<Tag, Seq<u64>> {
    let list = holders(tags, tag);
    if list.contains(session) {
        tags
    } else if list.len() >= MAX_TAG_HOLDERS {
        tags.insert(tag, list.drop_first().push(session))
    } else {
        tags.insert(tag, list.push(session))
    }
}

/// Whom a session displaces by taking up one tag.
pub open spec fn displaced(tags: Map<Tag, Seq<u64>>, session: u64, tag: Tag) -> Seq<u64> {
    let list = holders(tags, tag);
    if list.contains(session) || list.len() < MAX_TAG_HOLDERS {
        Seq::empty()
    } else {
        seq![list[0]]
    }
}

/// A session takes up tags one after the other.
pub open spec fn join_all(tags: Map<Tag, Seq<u64>>, session: u64, list: Seq<Tag>) -> Map<
    Tag,
    Seq<u64>,
>
    decreases list.len(),
{
    if list.len() == 0 {
        tags
    } else {
        join(join_all(tags, session, list.drop_last()), session, list.last())
    }
}

/// Whom a session displaces by taking up tags one after the other.
pub open spec fn displaced_all(tags: Map<Tag, Seq<u64>>, session: u64, list: Seq<Tag>) -> Seq<u64>
    decreases list.len(),
{
    if list.len() == 0 {
        Seq::empty()
    } else {
        displaced_all(tags, session, list.drop_last()) + displaced(
            join_all(tags, session, list.drop_last()),
            session,
            list.last(),
        )
    }
}

/// Every tag has one or two holders, none twice.
pub open spec fn tags_sound(tags: Map<Tag, Seq<u64>>) -> bool {
    forall|tag: Tag| #[trigger]
        tags.contains_key(tag) ==> 1 <= tags[tag].len() <= MAX_TAG_HOLDERS
            && tags[tag].no_duplicates()
}

/// The sessions a datagram on `tag` from `session` goes to: every other holder.
pub open spec fn tag_targets(registry: RegistryView, tag: Tag, session: u64) -> Seq<u64> {
    without(holders(registry.tags, tag), session)
}

/// The session a datagram for a node goes to, if it has one.
pub open spec fn node_targets(registry: RegistryView, node: NodeId) -> Seq<u64> {
    if registry.sessions.contains_key(node) {
        seq![registry.sessions[node]]
    } else {
        Seq::empty()
    }
}

/// Copy a list of session numbers without one of them.
fn copy_without(list: &Vec<u64>, session: u64) -> (r: Vec<u64>)
    ensures
        r@ == without(list@, session),
{
    let mut out: Vec<u64> = Vec::new();
    let mut i: usize = 0;
    proof {
        reveal(Seq::filter);
        assert(without(list@.subrange(0, 0), session) =~= Seq::empty());
    }
    while i < list.len()
        invariant
            i <= list.len(),
            out@ == without(list@.subrange(0, i as int), session),
        decreases list.len() - i,
    {
        proof {
            reveal(Seq::filter);
            let next = list@.subrange(0, i + 1);
            assert(next.drop_last() =~= list@.subrange(0, i as int));
        }
        if list[i] != session {
            out.push(list[i]);
        }
        i += 1;
    }
    assert(list@.subrange(0, list@.len() as int) =~= list@);
    out
}

/// Whether a list of session numbers has one of them.
fn lists(list: &Vec<u64>, session: u64) -> (r: bool)
    ensures
        r == list@.contains(session),
{
    let mut i: usize = 0;
    while i < list.len()
        invariant
            i <= list.len(),
            forall|k: int| 0 <= k < i ==> list@[k] != session,
        decreases list.len() - i,
    {
        if list[i] == session {
            assert(list@[i as int] == session);
            return true;
        }
        i += 1;
    }
    false
}

proof fn lemma_without(list: Seq<u64>, session: u64)
    ensures
        !without(list, session).contains(session),
        without(list, session).len() <= list.len(),
        list.no_duplicates() ==> without(list, session).no_duplicates(),
        forall|id: u64| #[trigger]
            without(list, session).contains(id) == (list.contains(id) && id != session),
    decreases list.len(),
{
    reveal(Seq::filter);
    if list.len() > 0 {
        let rest = list.drop_last();
        let last = list.last();
        lemma_without(rest, session);
        let inner = without(rest, session);
        let outer = without(list, session);
        assert(outer == if last != session {
            inner.push(last)
        } else {
            inner
        });
        assert forall|id: u64| #[trigger] outer.contains(id) == (list.contains(id) && id
            != session) by {
            if list.contains(id) && id != session {
                let k = choose|k: int| 0 <= k < list.len() && list[k] == id;
                if k < rest.len() {
                    assert(rest[k] == id);
                    assert(rest.contains(id));
                    assert(inner.contains(id));
                    let m = choose|m: int| 0 <= m < inner.len() && inner[m] == id;
                    assert(outer[m] == id);
                } else {
                    assert(outer[outer.len() - 1] == id);
                }
            }
            if outer.contains(id) {
                let m = choose|m: int| 0 <= m < outer.len() && outer[m] == id;
                if m < inner.len() {
                    assert(inner[m] == id);
                    assert(inner.contains(id));
                    assert(rest.contains(id));
                    let k = choose|k: int| 0 <= k < rest.len() && rest[k] == id;
                    assert(list[k] == id);
                } else {
                    assert(list[list.len() - 1] == id);
                }
            }
        }
        if list.no_duplicates() {
            assert(rest.no_duplicates());
            if last != session {
                assert(!inner.contains(last)) by {
                    if inner.contains(last) {
                        assert(rest.contains(last));
                        let k = choose|k: int| 0 <= k < rest.len() && rest[k] == last;
                        assert(list[k] == list[list.len() - 1]);
                    }
                }
                assert(inner.push(last).no_duplicates());
            }
        }
    } else {
        assert(without(list, session) =~= Seq::empty());
    }
}

impl Registry {
    /// No key occurs twice and every tag has one or two distinct holders.
    pub closed spec fn well_formed(self) -> bool {
        &&& self.sessions.well_formed()
        &&& self.tags.well_formed()
        &&& tags_sound(self@.tags)
    }

    /// In a well-formed registry no tag has more than two holders, and none twice.
    pub proof fn law_tags_have_two_ends(self)
        requires
            self.well_formed(),
        ensures
            tags_sound(self@.tags),
    {
    }

    /// Nobody is connected.
    pub fn new() -> (r: Self)
        ensures
            r.well_formed(),
            r@ == (RegistryView {
                sessions: Map::empty(),
                tags: Map::empty(),
                live: Multiset::empty(),
            }),
    {
        let r = Registry { sessions: Table::new(), tags: Table::new(), admitted: Vec::new() };
        proof {
            assert(r@.tags =~= Map::empty());
            r.admitted@.to_multiset_ensures();
            assert(r@.live =~= Multiset::empty());
        }
        r
    }

    /// How many connections come from one source.
    fn count_source(&self, source: IpAddr) -> (r: usize)
        ensures
            r == self@.live.count(source),
    {
        let mut count: usize = 0;
        let mut i: usize = 0;
        let ghost all = self.admitted@;
        proof {
            all.subrange(0, 0).to_multiset_ensures();
        }
        while i < self.admitted.len()
            invariant
                i <= self.admitted.len(),
                all == self.admitted@,
                count <= i,
                count == all.subrange(0, i as int).to_multiset().count(source),
            decreases self.admitted.len() - i,
        {
            proof {
                all.subrange(0, i as int).to_multiset_ensures();
                assert(all.subrange(0, i + 1) =~= all.subrange(0, i as int).push(all[i as int]));
            }
            if self.admitted[i].same(&source) {
                count += 1;
            }
            i += 1;
        }
        assert(all.subrange(0, all.len() as int) =~= all);
        count
    }

    /// Take a connection in, unless the relay or its source is at its cap.  A
    /// source cap of zero is no cap.  A refused connection sees no frame.
    pub fn take_in(
        &mut self,
        source: IpAddr,
        max_sessions: usize,
        max_per_source: usize,
    ) -> (r: bool)
        requires
            old(self).well_formed(),
        ensures
            final(self).well_formed(),
            ({
                let live = old(self)@.live;
                r == (live.len() < max_sessions && (max_per_source == 0 || live.count(source)
                    < max_per_source))
            }),
            final(self)@ == if r {
                RegistryView { live: old(self)@.live.insert(source), ..old(self)@ }
            } else {
                old(self)@
            },
    {
        proof {
            self.admitted@.to_multiset_ensures();
        }
        if self.admitted.len() >= max_sessions {
            return false;
        }
        if max_per_source != 0 && self.count_source(source) >= max_per_source {
            return false;
        }
        self.admitted.push(source);
        true
    }

    /// Give a connection's slot back.
    pub fn release(&mut self, source: IpAddr)
        requires
            old(self).well_formed(),
        ensures
            final(self).well_formed(),
            final(self)@ == (RegistryView { live: old(self)@.live.remove(source), ..old(self)@ }),
    {
        let mut i: usize = 0;
        while i < self.admitted.len()
            invariant
                i <= self.admitted.len(),
                old(self).well_formed(),
                *self == *old(self),
                forall|k: int| 0 <= k < i ==> self.admitted@[k] != source,
            decreases self.admitted.len() - i,
        {
            if self.admitted[i].same(&source) {
                proof {
                    self.admitted@.to_multiset_ensures();
                }
                let _ = self.admitted.remove(i);
                return ;
            }
            i += 1;
        }
        proof {
            self.admitted@.to_multiset_ensures();
            assert(!self.admitted@.contains(source));
            assert(self@.live.count(source) == 0);
            assert(self@.live.remove(source) =~= self@.live);
        }
    }

    fn leave_one(&mut self, session: u64, tag: Tag)
        requires
            old(self).well_formed(),
        ensures
            final(self).well_formed(),
            final(self)@ == (RegistryView {
                tags: leave(old(self)@.tags, session, tag),
                ..old(self)@
            }),
    {
        let ghost before = self@;
        match self.tags.get(&tag) {
            Some(list) => {
                let ghost seen = list@;
                let rest = copy_without(list, session);
                proof {
                    assert(before.tags[tag] == seen);
                    lemma_without(seen, session);
                }
                if rest.len() == 0 {
                    let _ = self.tags.remove(&tag);
                    proof {
                        assert(self@.tags =~= before.tags.remove(tag));
                    }
                } else {
                    let ghost kept = rest@;
                    let _ = self.tags.insert(tag, rest);
                    proof {
                        assert(self@.tags =~= before.tags.insert(tag, kept));
                    }
                }
            },
            None => {
                proof {
                    reveal(Seq::filter);
                    assert(without(holders(before.tags, tag), session) =~= Seq::empty());
                    assert(before.tags.remove(tag) =~= before.tags);
                }
            },
        }
    }

    fn join_one(&mut self, session: u64, tag: Tag, out: &mut Vec<u64>)
        requires
            old(self).well_formed(),
        ensures
            final(self).well_formed(),
            final(self)@ == (RegistryView {
                tags: join(old(self)@.tags, session, tag),
                ..old(self)@
            }),
            final(out)@ == old(out)@ + displaced(old(self)@.tags, session, tag),
    {
        let ghost before = self@;
        let ghost list = holders(before.tags, tag);
        let mut next: Vec<u64> = match self.tags.get(&tag) {
            Some(current) => {
                proof {
                    assert(before.tags[tag] == current@);
                }
                let mut copy: Vec<u64> = Vec::new();
                let mut i: usize = 0;
                while i < current.len()
                    invariant
                        i <= current.len(),
                        copy@ == current@.subrange(0, i as int),
                    decreases current.len() - i,
                {
                    copy.push(current[i]);
                    i += 1;
                    assert(copy@ =~= current@.subrange(0, i as int));
                }
                assert(copy@ =~= current@);
                copy
            },
            None => Vec::new(),
        };
        assert(next@ =~= list);
        if lists(&next, session) {
            assert(out@ =~= old(out)@ + displaced(before.tags, session, tag));
            return ;
        }
        if next.len() >= MAX_TAG_HOLDERS {
            let oldest: u64 = next.remove(0);
            out.push(oldest);
            proof {
                assert(next@ =~= list.drop_first());
                assert(out@ =~= old(out)@ + displaced(before.tags, session, tag));
            }
        } else {
            assert(out@ =~= old(out)@ + displaced(before.tags, session, tag));
        }
        next.push(session);
        let ghost after = next@;
        let _ = self.tags.insert(tag, next);
        proof {
            assert(self@.tags =~= before.tags.insert(tag, after));
            assert(self@.tags =~= join(before.tags, session, tag));
            assert(after.no_duplicates());
        }
    }

    /// Replace a session's registrations: drop `current`, add `next`.  A later
    /// `Register` carries the full replacement set, which is how an endpoint
    /// rotates epochs and cards.  Returns the sessions that lost a tag to this
    /// one; each is told that it was superseded.
    pub fn register_tags(&mut self, session: u64, current: &Vec<Tag>, next: &Vec<Tag>) -> (r: Vec<
        u64,
    >)
        requires
            old(self).well_formed(),
        ensures
            final(self).well_formed(),
            final(self)@ == (RegistryView {
                tags: join_all(leave_all(old(self)@.tags, session, current@), session, next@),
                ..old(self)@
            }),
            r@ == displaced_all(leave_all(old(self)@.tags, session, current@), session, next@),
    {
        let ghost before = self@;
        let mut i: usize = 0;
        assert(current@.subrange(0, 0) =~= Seq::empty());
        while i < current.len()
            invariant
                i <= current.len(),
                self.well_formed(),
                self@ == (RegistryView {
                    tags: leave_all(before.tags, session, current@.subrange(0, i as int)),
                    ..before
                }),
            decreases current.len() - i,
        {
            proof {
                let next_list = current@.subrange(0, i + 1);
                assert(next_list.drop_last() =~= current@.subrange(0, i as int));
            }
            self.leave_one(session, current[i]);
            i += 1;
        }
        assert(current@.subrange(0, current@.len() as int) =~= current@);
        let ghost middle = self@;
        let mut evicted: Vec<u64> = Vec::new();
        let mut i: usize = 0;
        assert(next@.subrange(0, 0) =~= Seq::empty());
        while i < next.len()
            invariant
                i <= next.len(),
                self.well_formed(),
                middle.tags == leave_all(before.tags, session, current@),
                self@ == (RegistryView {
                    tags: join_all(middle.tags, session, next@.subrange(0, i as int)),
                    ..before
                }),
                evicted@ == displaced_all(middle.tags, session, next@.subrange(0, i as int)),
            decreases next.len() - i,
        {
            proof {
                let longer = next@.subrange(0, i + 1);
                assert(longer.drop_last() =~= next@.subrange(0, i as int));
            }
            self.join_one(session, next[i], &mut evicted);
            i += 1;
        }
        assert(next@.subrange(0, next@.len() as int) =~= next@);
        evicted
    }

    /// The sessions a datagram on a tag goes to: every holder but the sender.
    pub fn targets_of_tag(&self, tag: &Tag, session: u64) -> (r: Vec<u64>)
        requires
            self.well_formed(),
        ensures
            r@ == tag_targets(self@, *tag, session),
            !r@.contains(session),
    {
        proof {
            lemma_without(holders(self@.tags, *tag), session);
        }
        match self.tags.get(tag) {
            Some(list) => {
                proof {
                    assert(self@.tags[*tag] == list@);
                }
                copy_without(list, session)
            },
            None => {
                proof {
                    reveal(Seq::filter);
                    assert(tag_targets(self@, *tag, session) =~= Seq::empty());
                }
                Vec::new()
            },
        }
    }

    /// The session a datagram for a node goes to.
    pub fn targets_of_node(&self, node: &NodeId) -> (r: Vec<u64>)
        requires
            self.well_formed(),
        ensures
            r@ == node_targets(self@, *node),
    {
        let mut out: Vec<u64> = Vec::new();
        if let Some(session) = self.sessions.get(node) {
            out.push(*session);
        }
        assert(out@ =~= node_targets(self@, *node));
        out
    }
}

// ---------------------------------------------------------------------------
// Sessions
// ---------------------------------------------------------------------------

/// Which kind of session the first frame chose.
#[derive(Debug)]
pub enum Mode {
    Identity(NodeId),
    Tags(Vec<Tag>),
}

/// One connection that has been welcomed.
#[derive(Debug)]
pub struct RelaySession {
    pub id: u64,
    pub mode: Mode,
    /// When the last ping or pong came, in milliseconds of the caller's clock.
    pub last_ping: u64,
    pub frames_in: u64,
    pub frames_out: u64,
    pub bytes_in: u64,
    pub dropped: u64,
}

/// A session that was just welcomed.
pub open spec fn fresh_session(id: u64, mode: Mode, now: u64) -> RelaySession {
    RelaySession { id, mode, last_ping: now, frames_in: 0, frames_out: 0, bytes_in: 0, dropped: 0 }
}

/// Whether a signature answers the challenge under one of the relay's hosts.
pub open spec fn answers_challenge(
    hosts: Seq<Seq<u8>>,
    challenge: Seq<u8>,
    node_id: NodeId,
    signature: Seq<u8>,
) -> bool {
    exists|i: int|
        0 <= i < hosts.len() && ed25519_accepts(
            node_id.0@,
            relay_auth_input(#[trigger] hosts[i], challenge),
            signature,
        )
}

/// The UTF-8 bytes of a list of strings.
pub open spec fn hosts_bytes(hosts: Seq<String>) -> Seq<Seq<u8>> {
    hosts.map_values(|s: String| vstd::utf8::encode_utf8(s@))
}

/// Whether a first frame is a good answer to the challenge.  Only an auth is
/// asked: any other frame is not one.
pub fn authenticated(hosts: &Vec<String>, challenge: &[u8; 32], first: &Option<Frame>) -> (r: bool)
    ensures
        r == (first matches Some(Frame::Auth { node_id, signature }) && answers_challenge(
            hosts_bytes(hosts@),
            challenge@,
            *node_id,
            signature@,
        )),
{
    match first {
        Some(Frame::Auth { node_id, signature }) => {
            let ghost all = hosts_bytes(hosts@);
            let mut i: usize = 0;
            while i < hosts.len()
                invariant
                    i <= hosts.len(),
                    all == hosts_bytes(hosts@),
                    *first == Some(Frame::Auth { node_id: *node_id, signature: *signature }),
                    forall|k: int|
                        0 <= k < i ==> !ed25519_accepts(
                            node_id.0@,
                            relay_auth_input(#[trigger] all[k], challenge@),
                            signature@,
                        ),
                decreases hosts.len() - i,
            {
                assert(all[i as int] == vstd::utf8::encode_utf8(hosts@[i as int]@));
                if verify_relay_auth(node_id, hosts[i].as_str(), challenge, signature) {
                    assert(ed25519_accepts(
                        node_id.0@,
                        relay_auth_input(all[i as int], challenge@),
                        signature@,
                    ));
                    return true;
                }
                i += 1;
            }
            false
        },
        _ => false,
    }
}

/// What a first frame leads to.
pub enum Opening {
    /// The session is up; the listed sessions were superseded by it.
    Up { session: RelaySession, superseded: Vec<u64> },
    /// The session is closed as malformed, for this reason.
    Refused(&'static str),
}

/// What a client sent, as far as the WebSocket layer tells it apart.
pub enum Incoming {
    /// A binary message that is a frame.
    Frame(Frame),
    /// A binary message that is no frame.
    Malformed,
    /// A WebSocket ping, pong or close.
    WebSocketPing,
    WebSocketPong,
    WebSocketClose,
    /// Text or anything else.
    NonBinary,
}

/// What becomes of a message.
pub enum Action {
    /// Deliver to the session of a node, within the byte budget.
    ToNode { destination: NodeId, frame: Frame },
    /// Deliver to every other holder of a tag, within the byte budget.
    ToTag { tag: Tag, frame: Frame },
    /// The session's tags were replaced; the listed sessions were superseded.
    Replaced { superseded: Vec<u64> },
    /// Send this frame back.
    Reply(Frame),
    /// Answer a WebSocket ping in kind.
    ReplyPong,
    /// Nothing to do.
    Nothing,
    /// The client ended the session.
    End,
    /// Close as malformed, for this reason.
    Refuse(&'static str),
}

/// What a frame asks for in a mode; `Register` is handled by `receive`.
pub open spec fn frame_action(mode: Mode, frame: Frame) -> Action {
    match frame {
        Frame::Send { destination, datagram } => match mode {
            Mode::Identity(source) => Action::ToNode {
                destination,
                frame: Frame::Recv { source, datagram },
            },
            Mode::Tags(_) => Action::Refuse("identity frame on a tag session"),
        },
        Frame::SendTag { tag, datagram } => match mode {
            Mode::Tags(_) => Action::ToTag { tag, frame: Frame::RecvTag { tag, datagram } },
            Mode::Identity(_) => Action::Refuse("tag frame on an identity session"),
        },
        Frame::Register { tags } => match mode {
            Mode::Tags(_) => Action::Nothing,
            Mode::Identity(_) => Action::Refuse("register on an identity session"),
        },
        Frame::Ping(opaque) => Action::Reply(Frame::Pong(opaque)),
        Frame::Pong(_) => Action::Nothing,
        Frame::Close(_) => Action::End,
        _ => Action::Refuse("unexpected frame from client"),
    }
}

/// The bytes of the datagram that a mode lets a frame send.
pub open spec fn frame_load(mode: Mode, frame: Frame) -> nat {
    match (mode, frame) {
        (Mode::Identity(_), Frame::Send { datagram, .. }) => datagram@.len(),
        (Mode::Tags(_), Frame::SendTag { datagram, .. }) => datagram@.len(),
        _ => 0,
    }
}

/// The counter after a step.
pub open spec fn advanced(counter: u64, by: nat) -> u64 {
    ((counter + by) % 0x1_0000_0000_0000_0000) as u64
}

/// The session after a frame, its mode left as it was.
pub open spec fn after_frame(session: RelaySession, frame: Frame, now: u64) -> RelaySession {
    RelaySession {
        frames_in: advanced(session.frames_in, 1),
        bytes_in: advanced(session.bytes_in, frame_load(session.mode, frame)),
        last_ping: if frame is Ping || frame is Pong {
            now
        } else {
            session.last_ping
        },
        ..session
    }
}

fn advance(counter: u64, by: u64) -> (r: u64)
    ensures
        r == advanced(counter, by as nat),
{
    counter.wrapping_add(by)
}

/// A binary message as a frame, or as malformed.
pub fn read_binary(bytes: &[u8]) -> (r: Incoming)
    ensures
        match r {
            Incoming::Frame(frame) => frame_valid(frame) && frame_bytes(frame) == bytes@,
            Incoming::Malformed => forall|frame: Frame|
                frame_valid(frame) ==> #[trigger] frame_bytes(frame) != bytes@,
            _ => false,
        },
{
    match Frame::decode(bytes) {
        Some(frame) => Incoming::Frame(frame),
        None => Incoming::Malformed,
    }
}

impl Registry {
    /// Open a session by its first frame, given whether it answered the challenge.
    ///
    /// An auth that answered makes an identity session and supersedes the node's
    /// earlier one.  A register with at least one tag makes a tag session.
    /// Anything else is refused.
    pub fn open(&mut self, id: u64, first: Option<Frame>, authenticated: bool, now: u64) -> (r:
        Opening)
        requires
            old(self).well_formed(),
        ensures
            final(self).well_formed(),
            match first {
                Some(Frame::Auth { node_id, .. }) => if authenticated {
                    &&& r matches Opening::Up { session, superseded }
                    &&& session == fresh_session(id, Mode::Identity(node_id), now)
                    &&& superseded@ == node_targets(old(self)@, node_id)
                    &&& final(self)@ == (RegistryView {
                        sessions: old(self)@.sessions.insert(node_id, id),
                        ..old(self)@
                    })
                } else {
                    r == Opening::Refused("auth signature refused") && final(self)@ == old(self)@
                },
                Some(Frame::Register { tags }) => if tags@.len() > 0 {
                    &&& r matches Opening::Up { session, superseded }
                    &&& session == fresh_session(id, Mode::Tags(tags), now)
                    &&& superseded@ == displaced_all(old(self)@.tags, id, tags@)
                    &&& final(self)@ == (RegistryView {
                        tags: join_all(old(self)@.tags, id, tags@),
                        ..old(self)@
                    })
                } else {
                    &&& r == Opening::Refused("first frame was not an auth or a register")
                    &&& final(self)@ == old(self)@
                },
                _ => {
                    &&& r == Opening::Refused("first frame was not an auth or a register")
                    &&& final(self)@ == old(self)@
                },
            },
    {
        match first {
            Some(Frame::Auth { node_id, signature: _ }) => {
                if !authenticated {
                    return Opening::Refused("auth signature refused");
                }
                let mut superseded: Vec<u64> = Vec::new();
                let ghost before = self@;
                match self.sessions.insert(node_id, id) {
                    Some(earlier) => {
                        superseded.push(earlier);
                    },
                    None => {},
                }
                assert(superseded@ =~= node_targets(before, node_id));
                Opening::Up {
                    session: RelaySession {
                        id,
                        mode: Mode::Identity(node_id),
                        last_ping: now,
                        frames_in: 0,
                        frames_out: 0,
                        bytes_in: 0,
                        dropped: 0,
                    },
                    superseded,
                }
            },
            Some(Frame::Register { tags }) => {
                if tags.len() == 0 {
                    return Opening::Refused("first frame was not an auth or a register");
                }
                let nothing: Vec<Tag> = Vec::new();
                let superseded = self.register_tags(id, &nothing, &tags);
                Opening::Up {
                    session: RelaySession {
                        id,
                        mode: Mode::Tags(tags),
                        last_ping: now,
                        frames_in: 0,
                        frames_out: 0,
                        bytes_in: 0,
                        dropped: 0,
                    },
                    superseded,
                }
            },
            _ => Opening::Refused("first frame was not an auth or a register"),
        }
    }

    /// Take one message from a welcomed session.
    pub fn receive(&mut self, session: &mut RelaySession, message: Incoming, now: u64) -> (r:
        Action)
        requires
            old(self).well_formed(),
        ensures
            final(self).well_formed(),
            match message {
                Incoming::Frame(frame) => match (old(session).mode, frame) {
                    (Mode::Tags(current), Frame::Register { tags }) => {
                        &&& *final(session) == (RelaySession {
                            mode: Mode::Tags(tags),
                            ..after_frame(*old(session), frame, now)
                        })
                        &&& final(self)@ == (RegistryView {
                            tags: join_all(
                                leave_all(old(self)@.tags, old(session).id, current@),
                                old(session).id,
                                tags@,
                            ),
                            ..old(self)@
                        })
                        &&& r matches Action::Replaced { superseded }
                        &&& superseded@ == displaced_all(
                            leave_all(old(self)@.tags, old(session).id, current@),
                            old(session).id,
                            tags@,
                        )
                    },
                    _ => {
                        &&& r == frame_action(old(session).mode, frame)
                        &&& *final(session) == after_frame(*old(session), frame, now)
                        &&& final(self)@ == old(self)@
                    },
                },
                _ => {
                    &&& final(self)@ == old(self)@
                    &&& *final(session) == *old(session)
                    &&& r == match message {
                        Incoming::Malformed => Action::Refuse("oversize or malformed frame"),
                        Incoming::NonBinary => Action::Refuse("non-binary frame"),
                        Incoming::WebSocketPing => Action::ReplyPong,
                        Incoming::WebSocketPong => Action::Nothing,
                        _ => Action::End,
                    }
                },
            },
    {
        let frame = match message {
            Incoming::Frame(frame) => frame,
            Incoming::Malformed => {
                return Action::Refuse("oversize or malformed frame");
            },
            Incoming::NonBinary => {
                return Action::Refuse("non-binary frame");
            },
            Incoming::WebSocketPing => {
                return Action::ReplyPong;
            },
            Incoming::WebSocketPong => {
                return Action::Nothing;
            },
            Incoming::WebSocketClose => {
                return Action::End;
            },
        };
        session.frames_in = advance(session.frames_in, 1);
        match frame {
            Frame::Send { destination, datagram } => match &session.mode {
                Mode::Identity(node_id) => {
                    let source = *node_id;
                    session.bytes_in = advance(session.bytes_in, datagram.len() as u64);
                    Action::ToNode { destination, frame: Frame::Recv { source, datagram } }
                },
                Mode::Tags(_) => Action::Refuse("identity frame on a tag session"),
            },
            Frame::SendTag { tag, datagram } => match &session.mode {
                Mode::Tags(_) => {
                    session.bytes_in = advance(session.bytes_in, datagram.len() as u64);
                    Action::ToTag { tag, frame: Frame::RecvTag { tag, datagram } }
                },
                Mode::Identity(_) => Action::Refuse("tag frame on an identity session"),
            },
            Frame::Register { tags } => {
                let superseded = match &session.mode {
                    Mode::Tags(current) => self.register_tags(session.id, current, &tags),
                    Mode::Identity(_) => {
                        return Action::Refuse("register on an identity session");
                    },
                };
                session.mode = Mode::Tags(tags);
                Action::Replaced { superseded }
            },
            Frame::Ping(opaque) => {
                session.last_ping = now;
                Action::Reply(Frame::Pong(opaque))
            },
            Frame::Pong(_) => {
                session.last_ping = now;
                Action::Nothing
            },
            Frame::Close(_) => Action::End,
            _ => Action::Refuse("unexpected frame from client"),
        }
    }

    /// Whatever the session registered leaves the relay's memory with it.  A node
    /// that has a newer session keeps that one.
    pub fn close(&mut self, session: &RelaySession)
        requires
            old(self).well_formed(),
        ensures
            final(self).well_formed(),
            final(self)@ == closed(old(self)@, *session),
    {
        match &session.mode {
            Mode::Identity(node_id) => {
                let ours = match self.sessions.get(node_id) {
                    Some(id) => *id == session.id,
                    None => false,
                };
                if ours {
                    let _ = self.sessions.remove(node_id);
                }
            },
            Mode::Tags(current) => {
                let nothing: Vec<Tag> = Vec::new();
                let _ = self.register_tags(session.id, current, &nothing);
            },
        }
    }
}

/// The registry after a session ended.
pub open spec fn closed(registry: RegistryView, session: RelaySession) -> RegistryView {
    match session.mode {
        Mode::Identity(node_id) => if registry.sessions.contains_key(node_id)
            && registry.sessions[node_id] == session.id {
            RegistryView { sessions: registry.sessions.remove(node_id), ..registry }
        } else {
            registry
        },
        Mode::Tags(current) => RegistryView {
            tags: leave_all(registry.tags, session.id, current@),
            ..registry
        },
    }
}

impl RelaySession {
    /// Whether the session has been silent for too long.
    pub fn idle(&self, now: u64) -> (r: bool)
        ensures
            r == (now - self.last_ping > IDLE_CLOSE_SECONDS * 1000),
    {
        now > self.last_ping && now - self.last_ping > IDLE_CLOSE_SECONDS * 1000
    }

    /// One frame was sent to the client.
    pub fn note_sent(&mut self)
        ensures
            *final(self) == (RelaySession {
                frames_out: advanced(old(self).frames_out, 1),
                ..*old(self)
            }),
    {
        self.frames_out = advance(self.frames_out, 1);
    }

    /// Account for a datagram: refused by the budget, without a target, or offered
    /// to `targets` queues of which `full` had no room.
    pub fn note_delivery(&mut self, within_budget: bool, targets: u64, full: u64)
        ensures
            *final(self) == (RelaySession {
                dropped: advanced(
                    old(self).dropped,
                    if !within_budget || targets == 0 {
                        1
                    } else {
                        full as nat
                    },
                ),
                ..*old(self)
            }),
    {
        let lost: u64 = if !within_budget || targets == 0 {
            1
        } else {
            full
        };
        self.dropped = advance(self.dropped, lost);
    }
}

/// The frame that tells a client its session is closed as malformed.
pub fn malformed_close() -> (r: Frame)
    ensures
        r == Frame::Close(CLOSE_REASON_MALFORMED),
{
    Frame::Close(CLOSE_REASON_MALFORMED)
}

/// The frame that tells a client another session took its place.
pub fn superseded_close() -> (r: Frame)
    ensures
        r == Frame::Close(CLOSE_REASON_SUPERSEDED),
{
    Frame::Close(CLOSE_REASON_SUPERSEDED)
}

/// A datagram on a tag never comes back to its sender.
pub proof fn law_tag_delivery_excludes_the_sender(registry: RegistryView, tag: Tag, session: u64)
    ensures
        !tag_targets(registry, tag, session).contains(session),
        forall|other: u64|
            other != session ==> tag_targets(registry, tag, session).contains(other) == holders(
                registry.tags,
                tag,
            ).contains(other),
{
    lemma_without(holders(registry.tags, tag), session);
}

proof fn lemma_leave(tags: Map<Tag, Seq<u64>>, session: u64, gone: Tag, tag: Tag, id: u64)
    ensures
        holders(leave(tags, session, gone), tag).contains(id) == (holders(tags, tag).contains(id)
            && !(tag == gone && id == session)),
{
    lemma_without(holders(tags, gone), session);
    let rest = without(holders(tags, gone), session);
    if tag == gone && rest.len() == 0 {
        assert(!rest.contains(id));
    }
}

proof fn lemma_leave_all(
    tags: Map<Tag, Seq<u64>>,
    session: u64,
    list: Seq<Tag>,
    tag: Tag,
    id: u64,
)
    ensures
        holders(leave_all(tags, session, list), tag).contains(id) == (holders(tags, tag).contains(
            id,
        ) && !(list.contains(tag) && id == session)),
    decreases list.len(),
{
    if list.len() > 0 {
        let rest = list.drop_last();
        lemma_leave_all(tags, session, rest, tag, id);
        lemma_leave(leave_all(tags, session, rest), session, list.last(), tag, id);
        if list.contains(tag) {
            let k = choose|k: int| 0 <= k < list.len() && list[k] == tag;
            if k < rest.len() {
                assert(rest[k] == tag);
            }
        }
        if rest.contains(tag) {
            let k = choose|k: int| 0 <= k < rest.len() && rest[k] == tag;
            assert(list[k] == tag);
        }
        assert(list.contains(list.last())) by {
            assert(list[list.len() - 1] == list.last());
        }
    }
}

proof fn lemma_join(tags: Map<Tag, Seq<u64>>, session: u64, gained: Tag, tag: Tag)
    ensures
        holders(join(tags, session, gained), tag).contains(session) == (holders(
            tags,
            tag,
        ).contains(session) || tag == gained),
{
    let list = holders(tags, gained);
    if tag == gained && !list.contains(session) {
        let after = holders(join(tags, session, gained), tag);
        assert(after[after.len() - 1] == session);
    }
}

proof fn lemma_join_all(tags: Map<Tag, Seq<u64>>, session: u64, list: Seq<Tag>, tag: Tag)
    ensures
        holders(join_all(tags, session, list), tag).contains(session) == (holders(
            tags,
            tag,
        ).contains(session) || list.contains(tag)),
    decreases list.len(),
{
    if list.len() > 0 {
        let rest = list.drop_last();
        lemma_join_all(tags, session, rest, tag);
        lemma_join(join_all(tags, session, rest), session, list.last(), tag);
        if list.contains(tag) {
            let k = choose|k: int| 0 <= k < list.len() && list[k] == tag;
            if k < rest.len() {
                assert(rest[k] == tag);
            }
        }
        if rest.contains(tag) {
            let k = choose|k: int| 0 <= k < rest.len() && rest[k] == tag;
            assert(list[k] == tag);
        }
        assert(list.contains(list.last())) by {
            assert(list[list.len() - 1] == list.last());
        }
    }
}

/// A later register replaces the whole set: a session that held at most the tags
/// it had registered holds exactly the new ones afterwards.
pub proof fn law_register_replaces(
    tags: Map<Tag, Seq<u64>>,
    session: u64,
    current: Seq<Tag>,
    next: Seq<Tag>,
    tag: Tag,
)
    requires
        accounted(tags, session, current),
    ensures
        holders(
            join_all(leave_all(tags, session, current), session, next),
            tag,
        ).contains(session) == next.contains(tag),
{
    lemma_leave_all(tags, session, current, tag, session);
    lemma_join_all(leave_all(tags, session, current), session, next, tag);
    if holders(tags, tag).contains(session) {
        assert(current.contains(tag));
    }
}

/// Whether the tags a session holds are among those it last registered.
pub open spec fn accounted(tags: Map<Tag, Seq<u64>>, session: u64, registered: Seq<Tag>) -> bool {
    forall|tag: Tag| #[trigger]
        holders(tags, tag).contains(session) ==> registered.contains(tag)
}

proof fn lemma_join_others(tags: Map<Tag, Seq<u64>>, session: u64, gained: Tag, tag: Tag, id: u64)
    requires
        id != session,
        holders(join(tags, session, gained), tag).contains(id),
    ensures
        holders(tags, tag).contains(id),
{
    let before = holders(tags, tag);
    let after = holders(join(tags, session, gained), tag);
    let k = choose|k: int| 0 <= k < after.len() && after[k] == id;
    if after != before {
        if before.len() >= MAX_TAG_HOLDERS {
            assert(before[k + 1] == id);
        } else {
            assert(before[k] == id);
        }
    }
}

proof fn lemma_join_all_others(
    tags: Map<Tag, Seq<u64>>,
    session: u64,
    list: Seq<Tag>,
    tag: Tag,
    id: u64,
)
    requires
        id != session,
        holders(join_all(tags, session, list), tag).contains(id),
    ensures
        holders(tags, tag).contains(id),
    decreases list.len(),
{
    if list.len() > 0 {
        let rest = list.drop_last();
        lemma_join_others(join_all(tags, session, rest), session, list.last(), tag, id);
        lemma_join_all_others(tags, session, rest, tag, id);
    }
}

/// What a session holds stays accounted for, whoever registers or leaves: the session
/// itself by its new set, any other by the set it had.
pub proof fn law_registrations_stay_accounted(
    tags: Map<Tag, Seq<u64>>,
    session: u64,
    current: Seq<Tag>,
    next: Seq<Tag>,
    other: u64,
    registered: Seq<Tag>,
)
    requires
        accounted(tags, session, current),
        accounted(tags, other, registered),
        other != session,
    ensures
        accounted(join_all(leave_all(tags, session, current), session, next), session, next),
        accounted(join_all(leave_all(tags, session, current), session, next), other, registered),
{
    let after = join_all(leave_all(tags, session, current), session, next);
    assert forall|tag: Tag| #[trigger] holders(after, tag).contains(session) implies next.contains(
        tag,
    ) by {
        law_register_replaces(tags, session, current, next, tag);
    }
    assert forall|tag: Tag| #[trigger]
        holders(after, tag).contains(other) implies registered.contains(tag) by {
        lemma_join_all_others(leave_all(tags, session, current), session, next, tag, other);
        lemma_leave_all(tags, session, current, tag, other);
    }
}

/// Nothing of a tag session stays behind when it ends, and nobody else loses
/// anything by it.
pub proof fn law_closed_session_leaves_nothing(
    registry: RegistryView,
    session: RelaySession,
    current: Seq<Tag>,
    tag: Tag,
    other: u64,
)
    requires
        session.mode matches Mode::Tags(tags) && tags@ == current,
        accounted(registry.tags, session.id, current),
    ensures
        !holders(closed(registry, session).tags, tag).contains(session.id),
        other != session.id ==> holders(closed(registry, session).tags, tag).contains(other)
            == holders(registry.tags, tag).contains(other),
{
    lemma_leave_all(registry.tags, session.id, current, tag, session.id);
    lemma_leave_all(registry.tags, session.id, current, tag, other);
    if holders(registry.tags, tag).contains(session.id) {
        assert(current.contains(tag));
    }
}

/// The newest session of a node keeps its place when an earlier one ends.
pub proof fn law_superseded_session_does_not_unseat(
    registry: RegistryView,
    session: RelaySession,
    node: NodeId,
)
    requires
        session.mode == Mode::Identity(node),
        registry.sessions.contains_key(node),
        registry.sessions[node] != session.id,
    ensures
        closed(registry, session) == registry,
{
}

} // verus!
