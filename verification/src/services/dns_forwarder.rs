//! The DNS forwarder on the inner network and its cache.

use crate::addr::Ipv4Addr;
use crate::services::utils::WanLease;
use crate::time::Instant;
use vstd::prelude::*;
use vstd::utf8::encode_utf8;

verus! {

/// The UDP port of a name server.
pub const DNS_PORT: u16 = 53;

/// The length of the header of a DNS message.
pub const DNS_HEADER_SIZE: usize = 12;

/// How long a response without answers is kept, in seconds.
pub const DEFAULT_TTL_SECS: u32 = 30;

/// How long a response is kept at most, in seconds.
pub const MAX_TTL_SECS: u32 = 3600;

/// A question of a DNS message, each part as `dns_parser` writes it out.
pub struct DnsQuestion {
    pub name: String,
    pub kind: String,
    pub class: String,
}

/// The name, the type and the class that a question is about.
pub type QuestionView = (Seq<char>, Seq<char>, Seq<char>);

impl DeepView for DnsQuestion {
    type V = QuestionView;

    open spec fn deep_view(&self) -> QuestionView {
        (self.name@, self.kind@, self.class@)
    }
}

/// What is read of a DNS message: its questions, and how long each of its
/// answers holds, in seconds.
pub struct DnsPacket {
    pub questions: Vec<DnsQuestion>,
    pub answer_ttls: Vec<u32>,
}

/// The questions of a message, and how long its answers hold.
pub type PacketView = (Seq<QuestionView>, Seq<u32>);

impl DeepView for DnsPacket {
    type V = PacketView;

    open spec fn deep_view(&self) -> PacketView {
        (self.questions.deep_view(), self.answer_ttls@)
    }
}

/// What `dns_parser` reads from a message, if it is a valid one.
pub uninterp spec fn parsed_message(data: Seq<u8>) -> Option<
    (Seq<(Seq<char>, Seq<char>, Seq<char>)>, Seq<u32>),
>;

/// `dns_parser::Packet::parse`, with each question's name as `Display` writes it
/// and its type and class as `Debug` writes them. What it reads is a function of
/// the octets alone; a message has twelve at least.
#[verifier::external_body]
fn parse_message(data: &[u8]) -> (r: Option<DnsPacket>)
    ensures
        parsed_message(data@) == (match r {
            Some(packet) => Some(packet.deep_view()),
            None => None,
        }),
        r is Some ==> data@.len() >= DNS_HEADER_SIZE,
{
    let packet = dns_parser::Packet::parse(data).ok()?;
    let questions = packet.questions.iter().map(|q| DnsQuestion {
        name: q.qname.to_string(),
        kind: format!("{:?}", q.qtype),
        class: format!("{:?}", q.qclass),
    });
    Some(DnsPacket {
        questions: questions.collect(),
        answer_ttls: packet.answers.iter().map(|answer| answer.ttl).collect(),
    })
}

/// What a question looks like as a key of the cache.
pub open spec fn question_key(question: QuestionView) -> Seq<u8> {
    encode_utf8(question.0 + ":"@ + question.1 + ":"@ + question.2)
}

/// The key of a message: that of its first question, if it has one.
pub open spec fn packet_key(packet: PacketView) -> Option<Seq<u8>> {
    if packet.0.len() == 0 {
        None
    } else {
        Some(question_key(packet.0[0]))
    }
}

/// The key of a message that was read.
pub fn cache_key_of(packet: &DnsPacket) -> (r: Option<Vec<u8>>)
    ensures
        (match r {
            Some(key) => packet_key(packet.deep_view()) == Some(key@),
            None => packet_key(packet.deep_view()) is None,
        }),
{
    assert(packet.deep_view().0.len() == packet.questions.len());
    if packet.questions.len() == 0 {
        return None;
    }
    let question = &packet.questions[0];
    assert(packet.deep_view().0[0] == question.deep_view());
    let mut key = question.name.as_str().to_owned();
    key.append(":");
    key.append(question.kind.as_str());
    key.append(":");
    key.append(question.class.as_str());
    Some(key.as_str().as_bytes_vec())
}

/// The key of a query: that of what `dns_parser` reads from it.
pub open spec fn query_key(query: Seq<u8>) -> Option<Seq<u8>> {
    match parsed_message(query) {
        Some(packet) => packet_key(packet),
        None => None,
    }
}

/// The key of a query, if it is a valid message with a question.
pub fn get_cache_key(query: &[u8]) -> (r: Option<Vec<u8>>)
    ensures
        (match r {
            Some(key) => query_key(query@) == Some(key@),
            None => query_key(query@) is None,
        }),
        query@.len() < DNS_HEADER_SIZE ==> r is None,
{
    match parse_message(query) {
        Some(packet) => cache_key_of(&packet),
        None => None,
    }
}

/// A response that is kept, and until when.
pub struct CacheEntry {
    pub key: Vec<u8>,
    pub response: Vec<u8>,
    pub expiry: Instant,
}

/// A key, a response and when it expires.
pub struct EntryView {
    pub key: Seq<u8>,
    pub response: Seq<u8>,
    pub expiry: Instant,
}

impl DeepView for CacheEntry {
    type V = EntryView;

    open spec fn deep_view(&self) -> EntryView {
        EntryView { key: self.key@, response: self.response@, expiry: self.expiry }
    }
}

/// What is kept: under each key a response, and until when.
pub type CacheView = Map<Seq<u8>, (Seq<u8>, Instant)>;

/// What a row of entries keeps.
spec fn map_of(entries: Seq<EntryView>) -> CacheView
    decreases entries.len(),
{
    if entries.len() == 0 {
        Map::empty()
    } else {
        let last = entries.last();
        map_of(entries.drop_last()).insert(last.key, (last.response, last.expiry))
    }
}

/// Whether no two entries have the same key.
spec fn distinct(entries: Seq<EntryView>) -> bool
    decreases entries.len(),
{
    entries.len() == 0 || (distinct(entries.drop_last()) && !map_of(
        entries.drop_last(),
    ).contains_key(entries.last().key))
}

proof fn lemma_map_of_entry(entries: Seq<EntryView>, i: int)
    requires
        distinct(entries),
        0 <= i < entries.len(),
    ensures
        map_of(entries).contains_key(entries[i].key),
        map_of(entries)[entries[i].key] == (entries[i].response, entries[i].expiry),
    decreases entries.len(),
{
    if i < entries.len() - 1 {
        lemma_map_of_entry(entries.drop_last(), i);
        assert(entries.drop_last()[i] == entries[i]);
    }
}

proof fn lemma_map_of_key(entries: Seq<EntryView>, key: Seq<u8>)
    requires
        map_of(entries).contains_key(key),
    ensures
        exists|i: int| 0 <= i < entries.len() && (#[trigger] entries[i]).key == key,
    decreases entries.len(),
{
    if entries.last().key == key {
        assert(entries[entries.len() - 1].key == key);
    } else {
        lemma_map_of_key(entries.drop_last(), key);
        let i = choose|i: int|
            0 <= i < entries.len() - 1 && (#[trigger] entries.drop_last()[i]).key == key;
        assert(entries[i].key == key);
    }
}

proof fn lemma_remove(entries: Seq<EntryView>, i: int)
    requires
        distinct(entries),
        0 <= i < entries.len(),
    ensures
        distinct(entries.remove(i)),
        map_of(entries.remove(i)) == map_of(entries).remove(entries[i].key),
    decreases entries.len(),
{
    let head = entries.drop_last();
    let last = entries.last();
    if i == entries.len() - 1 {
        assert(entries.remove(i) =~= head);
        assert(map_of(head) =~= map_of(entries).remove(last.key));
    } else {
        lemma_remove(head, i);
        lemma_map_of_entry(head, i);
        assert(head[i] == entries[i]);
        let rest = entries.remove(i);
        assert(rest.drop_last() =~= head.remove(i));
        assert(rest.last() == last);
        assert(map_of(rest) =~= map_of(entries).remove(entries[i].key));
    }
}

/// The responses that are kept.
pub struct DnsCache {
    entries: Vec<CacheEntry>,
}

impl View for DnsCache {
    type V = CacheView;

    closed spec fn view(&self) -> CacheView {
        map_of(self.entries.deep_view())
    }
}

/// Whether every response that is kept has a whole header.
pub open spec fn have_headers(cache: CacheView) -> bool {
    forall|key: Seq<u8>| #[trigger]
        cache.contains_key(key) ==> cache[key].0.len() >= DNS_HEADER_SIZE
}

/// What is left of `cache` once all that has expired by `now` is gone.
pub open spec fn unexpired(cache: CacheView, now: Instant) -> CacheView {
    Map::new(
        |key: Seq<u8>| cache.contains_key(key) && cache[key].1.nanos > now.nanos,
        |key: Seq<u8>| cache[key],
    )
}

/// The response that is kept under a key, if it has not expired.
pub open spec fn cached(cache: CacheView, key: Seq<u8>, now: Instant) -> Option<Seq<u8>> {
    if cache.contains_key(key) && cache[key].1.nanos > now.nanos {
        Some(cache[key].0)
    } else {
        None
    }
}

/// `cache` without the key if what is kept under it has expired.
pub open spec fn without_expired(cache: CacheView, key: Seq<u8>, now: Instant) -> CacheView {
    if cache.contains_key(key) && cache[key].1.nanos <= now.nanos {
        cache.remove(key)
    } else {
        cache
    }
}

/// Whether two rows of octets are the same.
fn same_octets(a: &[u8], b: &[u8]) -> (r: bool)
    ensures
        r == (a@ == b@),
{
    if a.len() != b.len() {
        return false;
    }
    let mut i: usize = 0;
    while i < a.len()
        invariant
            a.len() == b.len(),
            i <= a.len(),
            forall|k: int| 0 <= k < i ==> #[trigger] a@[k] == b@[k],
        decreases a.len() - i,
    {
        if a[i] != b[i] {
            return false;
        }
        i += 1;
    }
    assert(a@ =~= b@);
    true
}

/// A copy of a row of octets.
fn copied(octets: &[u8]) -> (r: Vec<u8>)
    ensures
        r@ == octets@,
{
    let mut out: Vec<u8> = Vec::new();
    out.extend_from_slice(octets);
    assert(out@ =~= octets@);
    out
}

impl DnsCache {
    /// Whether each key is there once.
    pub closed spec fn wf(&self) -> bool {
        distinct(self.entries.deep_view())
    }

    /// Nothing is kept.
    pub fn new() -> (r: DnsCache)
        ensures
            r.wf(),
            r@ == Map::<Seq<u8>, (Seq<u8>, Instant)>::empty(),
            have_headers(r@),
    {
        DnsCache { entries: Vec::new() }
    }

    /// The place of a key among the entries.
    fn position(&self, key: &[u8]) -> (r: Option<usize>)
        requires
            self.wf(),
        ensures
            (match r {
                Some(i) => i < self.entries.len() && self.entries.deep_view()[i as int].key == key@,
                None => !self@.contains_key(key@),
            }),
    {
        let ghost all = self.entries.deep_view();
        let mut i: usize = 0;
        while i < self.entries.len()
            invariant
                i <= self.entries.len(),
                all == self.entries.deep_view(),
                forall|k: int| 0 <= k < i ==> (#[trigger] all[k]).key != key@,
            decreases self.entries.len() - i,
        {
            assert(all[i as int] == self.entries[i as int].deep_view());
            if same_octets(self.entries[i].key.as_slice(), key) {
                return Some(i);
            }
            i += 1;
        }
        proof {
            if self@.contains_key(key@) {
                lemma_map_of_key(all, key@);
            }
        }
        None
    }

    /// Removes a key.
    fn remove(&mut self, key: &[u8])
        requires
            old(self).wf(),
        ensures
            final(self).wf(),
            final(self)@ == old(self)@.remove(key@),
    {
        match self.position(key) {
            Some(i) => {
                proof {
                    lemma_remove(self.entries.deep_view(), i as int);
                }
                let ghost before = self.entries.deep_view();
                self.entries.remove(i);
                assert(self.entries.deep_view() =~= before.remove(i as int));
            },
            None => {
                assert(self@ =~= self@.remove(key@));
            },
        }
    }

    /// Keeps a response, in place of what is kept under its key.
    pub fn insert(&mut self, key: Vec<u8>, response: Vec<u8>, expiry: Instant)
        requires
            old(self).wf(),
        ensures
            final(self).wf(),
            final(self)@ == old(self)@.insert(key@, (response@, expiry)),
    {
        self.remove(key.as_slice());
        let ghost before = self.entries.deep_view();
        let entry = CacheEntry { key, response, expiry };
        self.entries.push(entry);
        proof {
            let after = self.entries.deep_view();
            assert(after =~= before.push(entry.deep_view()));
            assert(after.drop_last() =~= before);
            assert(self@ =~= old(self)@.insert(key@, (response@, expiry)));
        }
    }

    /// When what is kept under a key expires.
    pub fn expiry(&self, key: &[u8]) -> (r: Option<Instant>)
        requires
            self.wf(),
        ensures
            (match r {
                Some(expiry) => self@.contains_key(key@) && self@[key@].1 == expiry,
                None => !self@.contains_key(key@),
            }),
    {
        match self.position(key) {
            Some(i) => {
                proof {
                    lemma_map_of_entry(self.entries.deep_view(), i as int);
                }
                Some(self.entries[i].expiry)
            },
            None => None,
        }
    }

    /// Removes all that has expired.
    pub fn prune(&mut self, now: Instant)
        requires
            old(self).wf(),
        ensures
            final(self).wf(),
            final(self)@ == unexpired(old(self)@, now),
    {
        let mut i: usize = self.entries.len();
        while i > 0
            invariant
                i <= self.entries.len(),
                self.wf(),
                unexpired(self@, now) == unexpired(old(self)@, now),
                forall|k: int|
                    i <= k < self.entries.len() ==> (
                    #[trigger] self.entries.deep_view()[k]).expiry.nanos > now.nanos,
            decreases i,
        {
            i -= 1;
            let ghost all = self.entries.deep_view();
            let ghost before = self@;
            assert(all[i as int] == self.entries[i as int].deep_view());
            if self.entries[i].expiry.nanos <= now.nanos {
                proof {
                    lemma_remove(all, i as int);
                    lemma_map_of_entry(all, i as int);
                }
                self.entries.remove(i);
                proof {
                    let rest = self.entries.deep_view();
                    assert(rest =~= all.remove(i as int));
                    assert(unexpired(self@, now) =~= unexpired(before, now));
                    assert forall|k: int| i <= k < rest.len() implies (
                    #[trigger] rest[k]).expiry.nanos > now.nanos by {
                        assert(rest[k] == all[k + 1]);
                    }
                }
            }
        }
        proof {
            let all = self.entries.deep_view();
            assert forall|key: Seq<u8>| #[trigger] self@.contains_key(key) implies self@[key].1.nanos
                > now.nanos by {
                lemma_map_of_key(all, key);
                let k = choose|k: int| 0 <= k < all.len() && (#[trigger] all[k]).key == key;
                lemma_map_of_entry(all, k);
            }
            assert(unexpired(self@, now) =~= self@);
        }
    }
}

/// The response that is kept under a key, if it has not expired; one that has
/// is removed.
pub fn lookup_cache(key: &[u8], cache: &mut DnsCache, now: Instant) -> (r: Option<Vec<u8>>)
    requires
        old(cache).wf(),
    ensures
        final(cache).wf(),
        final(cache)@ == without_expired(old(cache)@, key@, now),
        (match r {
            Some(response) => cached(old(cache)@, key@, now) == Some(response@),
            None => cached(old(cache)@, key@, now) is None,
        }),
{
    match cache.position(key) {
        Some(i) => {
            proof {
                lemma_map_of_entry(cache.entries.deep_view(), i as int);
                assert(cache.entries.deep_view()[i as int] == cache.entries[i as int].deep_view());
            }
            if cache.entries[i].expiry.nanos > now.nanos {
                Some(copied(cache.entries[i].response.as_slice()))
            } else {
                cache.remove(key);
                None
            }
        },
        None => None,
    }
}

/// The lowest of some numbers.
pub open spec fn lowest(numbers: Seq<u32>) -> u32
    recommends
        numbers.len() > 0,
    decreases numbers.len(),
{
    if numbers.len() <= 1 {
        numbers[0]
    } else if numbers.last() < lowest(numbers.drop_last()) {
        numbers.last()
    } else {
        lowest(numbers.drop_last())
    }
}

/// How long a response is kept, in seconds: as long as the first of its answers
/// to expire holds, but no longer than an hour; half a minute where it has no
/// answers; not at all where an answer does not hold at all.
pub open spec fn lifetime(ttls: Seq<u32>) -> u32 {
    let ttl = if ttls.len() == 0 {
        DEFAULT_TTL_SECS
    } else {
        lowest(ttls)
    };
    if ttl > MAX_TTL_SECS {
        MAX_TTL_SECS
    } else {
        ttl
    }
}

/// How long a response is kept, in seconds.
pub fn cache_ttl_of(packet: &DnsPacket) -> (r: u32)
    ensures
        r == lifetime(packet.deep_view().1),
        r <= MAX_TTL_SECS,
{
    let ttls = &packet.answer_ttls;
    let mut ttl: u32 = DEFAULT_TTL_SECS;
    if ttls.len() > 0 {
        ttl = ttls[0];
        let mut i: usize = 1;
        assert(lowest(ttls@.take(1)) == ttl);
        while i < ttls.len()
            invariant
                1 <= i <= ttls.len(),
                ttl == lowest(ttls@.take(i as int)),
            decreases ttls.len() - i,
        {
            proof {
                let more = ttls@.take(i + 1);
                assert(more.drop_last() =~= ttls@.take(i as int));
                assert(more.last() == ttls@[i as int]);
            }
            if ttls[i] < ttl {
                ttl = ttls[i];
            }
            i += 1;
        }
        assert(ttls@.take(i as int) =~= ttls@);
    }
    if ttl > MAX_TTL_SECS {
        MAX_TTL_SECS
    } else {
        ttl
    }
}

/// What is kept once a response has come in that reads as `packet`. A response
/// that is no valid message, or that does not hold at all, is not kept.
pub open spec fn stored(
    cache: CacheView,
    key: Seq<u8>,
    response: Seq<u8>,
    packet: Option<PacketView>,
    now: Instant,
) -> CacheView {
    match packet {
        Some(message) => if response.len() < DNS_HEADER_SIZE || lifetime(message.1) == 0 {
            cache
        } else {
            cache.insert(key, (response, now.plus(lifetime(message.1) as int)))
        },
        None => cache,
    }
}

/// Keeps a response that reads as `packet`.
pub fn insert_parsed(
    key: Vec<u8>,
    response: Vec<u8>,
    packet: Option<&DnsPacket>,
    cache: &mut DnsCache,
    now: Instant,
)
    requires
        old(cache).wf(),
        now.in_range(),
    ensures
        final(cache).wf(),
        final(cache)@ == stored(
            old(cache)@,
            key@,
            response@,
            match packet {
                Some(message) => Some(message.deep_view()),
                None => None,
            },
            now,
        ),
{
    if response.len() < DNS_HEADER_SIZE {
        return;
    }
    if let Some(message) = packet {
        let ttl: u32 = cache_ttl_of(message);
        if ttl == 0 {
            return;
        }
        let expiry = now.after(ttl as u64);
        cache.insert(key, response, expiry);
    }
}

/// Keeps a response for as long as what `dns_parser` reads from it holds.
pub fn insert_cache(key: Vec<u8>, response: Vec<u8>, cache: &mut DnsCache, now: Instant)
    requires
        old(cache).wf(),
        now.in_range(),
    ensures
        final(cache).wf(),
        final(cache)@ == stored(old(cache)@, key@, response@, parsed_message(response@), now),
{
    match parse_message(response.as_slice()) {
        Some(packet) => insert_parsed(key, response, Some(&packet), cache, now),
        None => {},
    }
}

/// The name server that queries are forwarded to: the first that the outer
/// network gave, or else 8.8.8.8.
pub open spec fn upstream_of(servers: Seq<Ipv4Addr>) -> Ipv4Addr {
    if servers.len() > 0 {
        servers[0]
    } else {
        Ipv4Addr { bits: 0x0808_0808 }
    }
}

/// The name server that queries are forwarded to.
pub fn get_upstream_dns(lease: &WanLease) -> (r: Ipv4Addr)
    ensures
        r == upstream_of(lease@.dns_servers),
{
    if lease.dns_servers.len() > 0 {
        lease.dns_servers[0]
    } else {
        Ipv4Addr { bits: 0x0808_0808 }
    }
}

/// What is done with a query.
pub enum DnsAction {
    /// Nothing: it is no valid query.
    Drop,
    /// This is sent back.
    Reply(Vec<u8>),
    /// It is forwarded to this server, and the response is kept under this key.
    Forward { key: Vec<u8>, upstream: Ipv4Addr },
}

/// The content of a `DnsAction`.
pub enum ActionView {
    Drop,
    Reply(Seq<u8>),
    Forward { key: Seq<u8>, upstream: Ipv4Addr },
}

impl View for DnsAction {
    type V = ActionView;

    open spec fn view(&self) -> ActionView {
        match self {
            DnsAction::Drop => ActionView::Drop,
            DnsAction::Reply(response) => ActionView::Reply(response@),
            DnsAction::Forward { key, upstream } => ActionView::Forward {
                key: key@,
                upstream: *upstream,
            },
        }
    }
}

/// `response` with the identifier of `query`.
pub open spec fn with_id_of(response: Seq<u8>, query: Seq<u8>) -> Seq<u8> {
    response.update(0, query[0]).update(1, query[1])
}

/// What is done with a query whose key is `key`, and what is kept afterwards. A
/// response that is kept is sent back under the query's identifier.
pub open spec fn query_step(
    query: Seq<u8>,
    key: Option<Seq<u8>>,
    cache: CacheView,
    servers: Seq<Ipv4Addr>,
    now: Instant,
) -> (ActionView, CacheView) {
    if query.len() < DNS_HEADER_SIZE {
        (ActionView::Drop, cache)
    } else {
        match key {
            None => (ActionView::Drop, cache),
            Some(k) => (
                match cached(cache, k, now) {
                    Some(response) => ActionView::Reply(with_id_of(response, query)),
                    None => ActionView::Forward { key: k, upstream: upstream_of(servers) },
                },
                without_expired(cache, k, now),
            ),
        }
    }
}

/// What is done with a query whose key is `key`.
pub fn answer_with_key(
    query: &[u8],
    key: Option<Vec<u8>>,
    cache: &mut DnsCache,
    lease: &WanLease,
    now: Instant,
) -> (r: DnsAction)
    requires
        old(cache).wf(),
        have_headers(old(cache)@),
    ensures
        final(cache).wf(),
        have_headers(final(cache)@),
        (r@, final(cache)@) == query_step(
            query@,
            match key {
                Some(k) => Some(k@),
                None => None,
            },
            old(cache)@,
            lease@.dns_servers,
            now,
        ),
{
    if query.len() < DNS_HEADER_SIZE {
        return DnsAction::Drop;
    }
    match key {
        None => DnsAction::Drop,
        Some(k) => match lookup_cache(k.as_slice(), cache, now) {
            Some(response) => {
                let mut reply = response;
                reply.set(0, query[0]);
                reply.set(1, query[1]);
                DnsAction::Reply(reply)
            },
            None => DnsAction::Forward { key: k, upstream: get_upstream_dns(lease) },
        },
    }
}

/// What is done with a query.
pub fn handle_dns_query(
    query: &[u8],
    cache: &mut DnsCache,
    lease: &WanLease,
    now: Instant,
) -> (r: DnsAction)
    requires
        old(cache).wf(),
        have_headers(old(cache)@),
    ensures
        final(cache).wf(),
        have_headers(final(cache)@),
        (r@, final(cache)@) == query_step(
            query@,
            query_key(query@),
            old(cache)@,
            lease@.dns_servers,
            now,
        ),
{
    if query.len() < DNS_HEADER_SIZE {
        return DnsAction::Drop;
    }
    let key = get_cache_key(query);
    answer_with_key(query, key, cache, lease, now)
}

/// What is sent back once a forwarded query has been answered, or has not: the
/// response as it is, which is kept as far as it holds.
pub fn handle_dns_response(
    key: Vec<u8>,
    response: Option<Vec<u8>>,
    cache: &mut DnsCache,
    now: Instant,
) -> (r: Option<Vec<u8>>)
    requires
        old(cache).wf(),
        have_headers(old(cache)@),
        now.in_range(),
    ensures
        final(cache).wf(),
        have_headers(final(cache)@),
        (match response {
            Some(octets) => {
                &&& r matches Some(reply) && reply@ == octets@
                &&& final(cache)@ == stored(
                    old(cache)@,
                    key@,
                    octets@,
                    parsed_message(octets@),
                    now,
                )
            },
            None => r is None && final(cache)@ == old(cache)@,
        }),
{
    match response {
        Some(octets) => {
            let reply = copied(octets.as_slice());
            insert_cache(key, octets, cache, now);
            Some(reply)
        },
        None => None,
    }
}

/// The lowest of some numbers is one of them, and none is lower.
proof fn lemma_lowest(numbers: Seq<u32>)
    requires
        numbers.len() > 0,
    ensures
        numbers.contains(lowest(numbers)),
        forall|i: int| 0 <= i < numbers.len() ==> lowest(numbers) <= #[trigger] numbers[i],
    decreases numbers.len(),
{
    if numbers.len() == 1 {
        assert(numbers[0] == lowest(numbers));
    } else {
        let head = numbers.drop_last();
        lemma_lowest(head);
        assert forall|i: int| 0 <= i < numbers.len() implies lowest(numbers)
            <= #[trigger] numbers[i] by {
            if i < head.len() {
                assert(head[i] == numbers[i]);
            }
        }
        if numbers.last() < lowest(head) {
            assert(numbers[numbers.len() - 1] == lowest(numbers));
        } else {
            let k = choose|k: int| 0 <= k < head.len() && head[k] == lowest(head);
            assert(numbers[k] == lowest(numbers));
        }
    }
}

/// A response is kept for no longer than any of its answers holds, and for no
/// longer than an hour.
pub proof fn law_response_is_not_kept_too_long(ttls: Seq<u32>)
    ensures
        lifetime(ttls) <= MAX_TTL_SECS,
        forall|i: int| 0 <= i < ttls.len() ==> lifetime(ttls) <= #[trigger] ttls[i],
{
    if ttls.len() > 0 {
        lemma_lowest(ttls);
    }
}

/// A response that came in is what later queries of the same key are answered
/// with, under their own identifiers, until it expires; from then on such
/// queries are forwarded again.
pub proof fn law_kept_response_answers(
    cache: CacheView,
    key: Seq<u8>,
    response: Seq<u8>,
    packet: PacketView,
    servers: Seq<Ipv4Addr>,
    now: Instant,
    query: Seq<u8>,
    later: Instant,
)
    requires
        now.in_range(),
        response.len() >= DNS_HEADER_SIZE,
        query.len() >= DNS_HEADER_SIZE,
        lifetime(packet.1) > 0,
    ensures
        ({
            let kept = stored(cache, key, response, Some(packet), now);
            let (action, after) = query_step(query, Some(key), kept, servers, later);
            if later.nanos < now.nanos + lifetime(packet.1) * crate::time::NANOS_PER_SEC {
                action == ActionView::Reply(with_id_of(response, query)) && after == kept
            } else {
                action == (ActionView::Forward { key, upstream: upstream_of(servers) }) && after
                    == kept.remove(key)
            }
        }),
{
}

/// What is kept under one key has no bearing on the answer under another.
pub proof fn law_keys_are_apart(
    cache: CacheView,
    key: Seq<u8>,
    other: Seq<u8>,
    response: Seq<u8>,
    packet: Option<PacketView>,
    now: Instant,
    later: Instant,
)
    requires
        key != other,
    ensures
        cached(stored(cache, key, response, packet, now), other, later) == cached(
            cache,
            other,
            later,
        ),
{
}

/// Removing what has expired changes no answer from then on.
pub proof fn law_pruning_changes_no_answer(
    cache: CacheView,
    key: Seq<u8>,
    now: Instant,
    later: Instant,
)
    requires
        now.nanos <= later.nanos,
    ensures
        cached(unexpired(cache, now), key, later) == cached(cache, key, later),
{
}

/// A reply from the cache has the identifier of the query and is otherwise the
/// response that was kept.
pub proof fn law_reply_has_identifier_of_query(response: Seq<u8>, query: Seq<u8>)
    requires
        response.len() >= DNS_HEADER_SIZE,
        query.len() >= DNS_HEADER_SIZE,
    ensures
        ({
            let reply = with_id_of(response, query);
            &&& reply.len() == response.len()
            &&& reply.take(2) == query.take(2)
            &&& reply.skip(2) == response.skip(2)
        }),
{
    let reply = with_id_of(response, query);
    assert(reply.take(2) =~= query.take(2));
    assert(reply.skip(2) =~= response.skip(2));
}

proof fn lemma_last_colon(a: Seq<char>, b: Seq<char>, c: Seq<char>, d: Seq<char>)
    requires
        a + ":"@ + b == c + ":"@ + d,
        !b.contains(':'),
        !d.contains(':'),
    ensures
        a == c,
        b == d,
{
    reveal_strlit(":");
    let left = a + ":"@ + b;
    let right = c + ":"@ + d;
    assert(left.len() == a.len() + 1 + b.len());
    assert(right.len() == c.len() + 1 + d.len());
    assert(left[a.len() as int] == ':');
    assert(right[c.len() as int] == ':');
    if b.len() < d.len() {
        let k = a.len() - c.len() - 1;
        assert(d[k] == right[a.len() as int]);
        assert(d.contains(':'));
    } else if d.len() < b.len() {
        let k = c.len() - a.len() - 1;
        assert(b[k] == left[c.len() as int]);
        assert(b.contains(':'));
    }
    assert(a =~= left.take(a.len() as int));
    assert(c =~= right.take(c.len() as int));
    assert(b =~= left.skip(a.len() as int + 1));
    assert(d =~= right.skip(c.len() as int + 1));
}

/// Two questions with the same key are the same question, as long as the names
/// of types and classes hold no colon. A domain name may hold one.
pub proof fn law_key_identifies_question(a: QuestionView, b: QuestionView)
    requires
        question_key(a) == question_key(b),
        !a.1.contains(':') && !a.2.contains(':'),
        !b.1.contains(':') && !b.2.contains(':'),
    ensures
        a == b,
{
    broadcast use vstd::utf8::encode_utf8_decode_utf8;

    let left = a.0 + ":"@ + a.1;
    let right = b.0 + ":"@ + b.1;
    assert(vstd::utf8::decode_utf8(question_key(a)) == left + ":"@ + a.2);
    assert(vstd::utf8::decode_utf8(question_key(b)) == right + ":"@ + b.2);
    lemma_last_colon(left, a.2, right, b.2);
    lemma_last_colon(a.0, a.1, b.0, b.1);
}

/// What is done with any query. One that is too short or has no key is dropped. A
/// response that is kept under its key and has not expired is sent back, octet
/// for octet but for the identifier, which is that of the query. In all other
/// cases, whether nothing was ever kept under the key or what was kept has
/// expired, the query goes to the first name server there is, or to 8.8.8.8 where
/// there is none.
pub proof fn law_query_is_answered_or_forwarded(
    query: Seq<u8>,
    key: Option<Seq<u8>>,
    cache: CacheView,
    servers: Seq<Ipv4Addr>,
    now: Instant,
)
    requires
        have_headers(cache),
    ensures
        ({
            let (action, after) = query_step(query, key, cache, servers, now);
            match key {
                Some(k) => if query.len() < 12 {
                    action is Drop && after == cache
                } else if cache.contains_key(k) && cache[k].1.nanos > now.nanos {
                    &&& after == cache
                    &&& action matches ActionView::Reply(reply) && {
                        &&& reply.len() == cache[k].0.len()
                        &&& reply[0] == query[0]
                        &&& reply[1] == query[1]
                        &&& forall|i: int|
                            2 <= i < reply.len() ==> #[trigger] reply[i] == cache[k].0[i]
                    }
                } else {
                    &&& after == cache.remove(k)
                    &&& action matches ActionView::Forward { key: kept_under, upstream } && {
                        &&& kept_under == k
                        &&& servers.len() > 0 ==> upstream == servers[0]
                        &&& servers.len() == 0 ==> upstream.bits == crate::addr::be32(8, 8, 8, 8)
                    }
                },
                None => action is Drop && after == cache,
            }
        }),
{
    let after = query_step(query, key, cache, servers, now).1;
    if let Some(k) = key {
        if query.len() >= 12 {
            if !cache.contains_key(k) {
                assert(cache.remove(k) =~= cache);
            }
        }
    }
}

/// To which server a query goes, and whether it is answered, depends on nothing
/// that is kept under other keys.
pub proof fn law_other_keys_change_no_action(
    query: Seq<u8>,
    key: Seq<u8>,
    cache: CacheView,
    other: CacheView,
    servers: Seq<Ipv4Addr>,
    now: Instant,
)
    requires
        cache.contains_key(key) <==> other.contains_key(key),
        cache.contains_key(key) ==> cache[key] == other[key],
    ensures
        query_step(query, Some(key), cache, servers, now).0 == query_step(
            query,
            Some(key),
            other,
            servers,
            now,
        ).0,
{
}

/// How long a response is kept: half a minute where it has no answers; otherwise
/// as long as the answer that expires first, or an hour where all hold longer.
pub proof fn law_response_lives_as_long_as_its_answers(ttls: Seq<u32>)
    ensures
        ttls.len() == 0 ==> lifetime(ttls) == 30,
        ttls.len() > 0 ==> ttls.contains(lifetime(ttls)) || lifetime(ttls) == 3600,
        lifetime(ttls) <= 3600,
        forall|i: int| 0 <= i < ttls.len() ==> lifetime(ttls) <= #[trigger] ttls[i],
{
    if ttls.len() > 0 {
        lemma_lowest(ttls);
    }
}

/// A response that is a valid message of at least twelve octets, all of whose
/// answers hold for some time, is kept whole under its key, in place of what was
/// there, until so many seconds later as its answers hold. Any other response
/// changes nothing.
pub proof fn law_response_is_kept_until_it_expires(
    cache: CacheView,
    key: Seq<u8>,
    response: Seq<u8>,
    questions: Seq<QuestionView>,
    ttls: Seq<u32>,
    now: Instant,
    secs: int,
)
    requires
        now.in_range(),
        ttls.len() == 0 ==> secs == 30,
        ttls.len() > 0 ==> secs == 3600 || exists|i: int|
            0 <= i < ttls.len() && #[trigger] ttls[i] == secs,
        secs <= 3600,
        forall|i: int| 0 <= i < ttls.len() ==> secs <= #[trigger] ttls[i],
    ensures
        ({
            let after = stored(cache, key, response, Some((questions, ttls)), now);
            if response.len() >= 12 && secs > 0 {
                &&& after.dom() == cache.dom().insert(key)
                &&& after[key].0 == response
                &&& after[key].1.nanos == now.nanos + secs * 1_000_000_000
                &&& forall|k: Seq<u8>| k != key && #[trigger] cache.contains_key(k) ==> after[k]
                    == cache[k]
            } else {
                after == cache
            }
        }),
        stored(cache, key, response, None, now) == cache,
{
    law_response_lives_as_long_as_its_answers(ttls);
    if ttls.len() > 0 {
        if secs != 3600 {
            let i = choose|i: int| 0 <= i < ttls.len() && #[trigger] ttls[i] == secs;
            assert(lifetime(ttls) <= ttls[i]);
        }
        if ttls.contains(lifetime(ttls)) {
            let k = choose|k: int| 0 <= k < ttls.len() && ttls[k] == lifetime(ttls);
            assert(secs <= ttls[k]);
        }
    }
    assert(lifetime(ttls) == secs);
}

/// The key of a message spells the name, the type and the class of its first
/// question, with colons between them; the other questions and the answers have
/// no bearing on it, and a message without a question has no key.
pub proof fn law_key_spells_first_question(packet: PacketView)
    ensures
        packet.0.len() == 0 ==> packet_key(packet) is None,
        packet.0.len() > 0 ==> (packet_key(packet) matches Some(key) && vstd::utf8::decode_utf8(key)
            == packet.0[0].0 + seq![':'] + packet.0[0].1 + seq![':'] + packet.0[0].2),
{
    broadcast use vstd::utf8::encode_utf8_decode_utf8;

    reveal_strlit(":");
    assert(":"@ =~= seq![':']);
}

/// Of a query that is a valid message the key is that of the message; of any
/// other there is none.
pub proof fn law_query_has_key_of_its_message(query: Seq<u8>)
    ensures
        parsed_message(query) is None ==> query_key(query) is None,
        parsed_message(query) matches Some(packet) ==> query_key(query) == packet_key(packet),
{
}

/// What is left once all that has expired is gone: what expires later, as it was.
pub proof fn law_pruning_removes_what_expired(cache: CacheView, now: Instant, key: Seq<u8>)
    ensures
        unexpired(cache, now).contains_key(key) <==> cache.contains_key(key) && cache[key].1.nanos
            > now.nanos,
        unexpired(cache, now).contains_key(key) ==> unexpired(cache, now)[key] == cache[key],
{
}

/// The content of an action is what it says.
pub proof fn law_content_is_of_action(action: DnsAction)
    ensures
        action is Drop <==> action@ is Drop,
        action matches DnsAction::Reply(response) ==> action@ == ActionView::Reply(response@),
        action matches DnsAction::Forward { key, upstream } ==> action@ == (ActionView::Forward {
            key: key@,
            upstream,
        }),
{
}

} // verus!
