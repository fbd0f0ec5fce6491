//! The server's state and decisions: the pool of public domains still free, the
//! table of live control channels, and what a new connection asks for.
use vstd::prelude::*;
use vstd::multiset::Multiset;
use crate::packet::{Packet, PacketView, wire_decoding, wire_encoding};

verus! {

/// A public domain and the port on which the server listens for it.
pub type DomainPort = (String, u16);

/// The value of a [`DomainPort`].
pub open spec fn domain_port_view(dp: DomainPort) -> (Seq<char>, u16) {
    (dp.0@, dp.1)
}

/// The domains that no client holds, handed out last first.
pub struct DomainPool {
    free: Vec<DomainPort>,
}

impl View for DomainPool {
    type V = Seq<(Seq<char>, u16)>;

    closed spec fn view(&self) -> Seq<(Seq<char>, u16)> {
        self.free@.map_values(|dp: DomainPort| domain_port_view(dp))
    }
}

impl DomainPool {
    /// A pool that holds `entries`, the last of them handed out first.
    pub fn new(entries: Vec<DomainPort>) -> (p: Self)
        ensures
            p@ == entries@.map_values(|dp: DomainPort| domain_port_view(dp)),
    {
        DomainPool { free: entries }
    }

    /// The pool that the server starts with: three domains on ports 3002 to 3004.
    pub fn standard() -> (p: Self)
        ensures
            p@ == seq![
                ("test.rok.me"@, 3002u16),
                ("test2.rok.me"@, 3003u16),
                ("test3.rok.me"@, 3004u16),
            ],
    {
        let mut free: Vec<DomainPort> = Vec::new();
        free.push(("test.rok.me".to_owned(), 3002));
        free.push(("test2.rok.me".to_owned(), 3003));
        free.push(("test3.rok.me".to_owned(), 3004));
        let p = DomainPool { free };
        assert(p@ =~= seq![
            ("test.rok.me"@, 3002u16),
            ("test2.rok.me"@, 3003u16),
            ("test3.rok.me"@, 3004u16),
        ]);
        p
    }

    /// How many domains are free.
    pub fn len(&self) -> (n: usize)
        ensures
            n == self@.len(),
    {
        self.free.len()
    }

    /// Hands out the domain added last, or `None` when none is free.
    pub fn take(&mut self) -> (r: Option<DomainPort>)
        ensures
            old(self)@.len() == 0 ==> r is None && final(self)@ == old(self)@,
            old(self)@.len() > 0 ==> (r matches Some(dp) && domain_port_view(dp) == old(
                self,
            )@.last()) && final(self)@ == old(self)@.drop_last(),
    {
        let r = self.free.pop();
        assert(self@ =~= old(self)@.drop_last() || old(self)@.len() == 0);
        r
    }

    /// Returns a domain to the pool: it is the next one handed out.
    pub fn give_back(&mut self, dp: DomainPort)
        ensures
            final(self)@ == old(self)@.push(domain_port_view(dp)),
    {
        self.free.push(dp);
        assert(self@ =~= old(self)@.push(domain_port_view(dp)));
    }
}

/// Handing out a domain and giving it back leaves the pool as it was.
pub proof fn lemma_take_give_back(pool: Seq<(Seq<char>, u16)>)
    requires
        pool.len() > 0,
    ensures
        pool.drop_last().push(pool.last()) == pool,
{
    assert(pool.drop_last().push(pool.last()) =~= pool);
}

/// A domain given back is the next one handed out, and the pool is as before.
pub proof fn lemma_give_back_take(pool: Seq<(Seq<char>, u16)>, dp: (Seq<char>, u16))
    ensures
        pool.push(dp).last() == dp,
        pool.push(dp).drop_last() == pool,
{
    assert(pool.push(dp).drop_last() =~= pool);
}

/// The pool conserves domains: the free ones and those handed out are, together,
/// the ones it started with.
pub open spec fn conserves(
    initial: Multiset<(Seq<char>, u16)>,
    free: Seq<(Seq<char>, u16)>,
    handed_out: Multiset<(Seq<char>, u16)>,
) -> bool {
    free.to_multiset().add(handed_out) == initial
}

/// A pool that has handed out nothing conserves its domains.
pub proof fn lemma_conserves_at_start(free: Seq<(Seq<char>, u16)>)
    ensures
        conserves(free.to_multiset(), free, Multiset::empty()),
{
    broadcast use vstd::multiset::group_multiset_axioms;

    assert(free.to_multiset().add(Multiset::empty()) =~= free.to_multiset());
}

/// Handing out the domain added last keeps the domains conserved.
pub proof fn lemma_take_conserves(
    initial: Multiset<(Seq<char>, u16)>,
    free: Seq<(Seq<char>, u16)>,
    handed_out: Multiset<(Seq<char>, u16)>,
)
    requires
        conserves(initial, free, handed_out),
        free.len() > 0,
    ensures
        conserves(initial, free.drop_last(), handed_out.insert(free.last())),
{
    broadcast use vstd::multiset::group_multiset_axioms;
    broadcast use vstd::seq_lib::to_multiset_build;

    assert(free.drop_last().push(free.last()) =~= free);
    assert(free.drop_last().to_multiset().add(handed_out.insert(free.last())) =~= free.to_multiset().add(
        handed_out,
    ));
}

/// Giving back a domain that was handed out keeps the domains conserved.
pub proof fn lemma_give_back_conserves(
    initial: Multiset<(Seq<char>, u16)>,
    free: Seq<(Seq<char>, u16)>,
    handed_out: Multiset<(Seq<char>, u16)>,
    dp: (Seq<char>, u16),
)
    requires
        conserves(initial, free, handed_out),
        handed_out.count(dp) > 0,
    ensures
        conserves(initial, free.push(dp), handed_out.remove(dp)),
{
    broadcast use vstd::multiset::group_multiset_axioms;
    broadcast use vstd::seq_lib::to_multiset_build;

    assert(free.push(dp).to_multiset().add(handed_out.remove(dp)) =~= free.to_multiset().add(
        handed_out,
    ));
}

/// While the domains are conserved, a domain that the pool started with once is
/// handed out at most once, is not free while it is handed out, and no more
/// domains are handed out than the pool started with.
pub proof fn lemma_conserved_domains_distinct(
    initial: Multiset<(Seq<char>, u16)>,
    free: Seq<(Seq<char>, u16)>,
    handed_out: Multiset<(Seq<char>, u16)>,
    dp: (Seq<char>, u16),
)
    requires
        conserves(initial, free, handed_out),
        initial.count(dp) <= 1,
    ensures
        handed_out.count(dp) <= 1,
        handed_out.count(dp) == 1 ==> !free.contains(dp),
        handed_out.len() <= initial.len(),
{
    broadcast use vstd::multiset::group_multiset_axioms;
    broadcast use vstd::seq_lib::to_multiset_contains;

    assert(initial.count(dp) == free.to_multiset().count(dp) + handed_out.count(dp));
}

/// The domains of the standard pool are distinct.
pub proof fn lemma_standard_pool_distinct()
    ensures
        seq![
            ("test.rok.me"@, 3002u16),
            ("test2.rok.me"@, 3003u16),
            ("test3.rok.me"@, 3004u16),
        ].no_duplicates(),
{
}

/// What the server does when a handshake ends: an acknowledged domain is kept
/// for the client's control channel; when the reply could not be sent or no
/// acknowledgement came, the domain goes back to the pool.
pub fn finish_handshake(pool: &mut DomainPool, domain_port: DomainPort, acked: bool) -> (kept: Option<DomainPort>)
    ensures
        acked ==> kept == Some(domain_port) && final(pool)@ == old(pool)@,
        !acked ==> kept is None && final(pool)@ == old(pool)@.push(domain_port_view(domain_port)),
{
    if acked {
        Some(domain_port)
    } else {
        pool.give_back(domain_port);
        None
    }
}

/// What the server does after each read of a client's heartbeat on its control
/// channel: while reads succeed it keeps watching; when one fails the client is
/// gone, its domain goes back to the pool and the watch ends.
pub fn heartbeat_read(pool: &mut DomainPool, domain_port: DomainPort, read_ok: bool) -> (keep_watching: bool)
    ensures
        read_ok ==> keep_watching && final(pool)@ == old(pool)@,
        !read_ok ==> !keep_watching && final(pool)@ == old(pool)@.push(domain_port_view(domain_port)),
{
    if read_ok {
        true
    } else {
        pool.give_back(domain_port);
        false
    }
}

/// A client's control channel as the server keeps it: the domain and port it
/// holds, and the handle on which data connections for it are passed on.
pub struct ControlChannel<T> {
    pub domain_port: DomainPort,
    pub data_tx: T,
}

impl<T> ControlChannel<T> {
    /// A control channel for `domain_port` whose data connections go to `data_tx`.
    pub fn new(domain_port: DomainPort, data_tx: T) -> (c: Self)
        ensures
            c.domain_port == domain_port,
            c.data_tx == data_tx,
    {
        ControlChannel { domain_port, data_tx }
    }

    /// The value of the channel: its domain, its port and its handle.
    pub open spec fn view(&self) -> (Seq<char>, u16, T) {
        (self.domain_port.0@, self.domain_port.1, self.data_tx)
    }
}

/// The live control channels, one per domain at most.
pub struct ChannelTable<T> {
    entries: Vec<(String, ControlChannel<T>)>,
}

impl<T> ChannelTable<T> {
    /// No two entries have the same domain.
    #[verifier::type_invariant]
    closed spec fn distinct_domains(self) -> bool {
        forall|i: int, j: int|
            0 <= i < self.entries@.len() && 0 <= j < self.entries@.len() && i != j
                ==> #[trigger] self.entries@[i].0@ != #[trigger] self.entries@[j].0@
    }

    /// The index of the entry for `domain`.
    closed spec fn slot(self, domain: Seq<char>) -> int {
        choose|i: int| 0 <= i < self.entries@.len() && self.entries@[i].0@ == domain
    }

    /// The table's value: each domain that has an entry, to its channel's value.
    pub closed spec fn view(self) -> Map<Seq<char>, (Seq<char>, u16, T)> {
        Map::new(
            |domain: Seq<char>|
                exists|i: int| 0 <= i < self.entries@.len() && self.entries@[i].0@ == domain,
            |domain: Seq<char>| self.entries@[self.slot(domain)].1.view(),
        )
    }

    /// A table without channels.
    pub fn new() -> (t: Self)
        ensures
            t.view() == Map::<Seq<char>, (Seq<char>, u16, T)>::empty(),
    {
        let t = ChannelTable { entries: Vec::new() };
        assert(t.view() =~= Map::<Seq<char>, (Seq<char>, u16, T)>::empty());
        t
    }

    /// The index of the entry for `domain`, or the number of entries.
    fn position(&self, domain: &String) -> (k: usize)
        ensures
            k <= self.entries@.len(),
            k < self.entries@.len() ==> self.entries@[k as int].0@ == domain@,
            k == self.entries@.len() ==> forall|i: int|
                0 <= i < self.entries@.len() ==> self.entries@[i].0@ != domain@,
    {
        let mut i: usize = 0;
        while i < self.entries.len() && self.entries[i].0 != *domain
            invariant
                i <= self.entries@.len(),
                forall|j: int| 0 <= j < i ==> self.entries@[j].0@ != domain@,
            decreases self.entries.len() - i,
        {
            i = i + 1;
        }
        i
    }

    /// Whether a channel holds `domain`.
    pub fn contains(&self, domain: &String) -> (r: bool)
        ensures
            r == self.view().contains_key(domain@),
    {
        let k = self.position(domain);
        k < self.entries.len()
    }

    /// The channel that holds `domain`, if any.
    pub fn get(&self, domain: &String) -> (r: Option<&ControlChannel<T>>)
        ensures
            r is Some <==> self.view().contains_key(domain@),
            r matches Some(c) ==> self.view()[domain@] == c.view(),
    {
        proof {
            use_type_invariant(self);
        }
        let k = self.position(domain);
        if k < self.entries.len() {
            let ghost s = self.slot(domain@);
            assert(s == k);
            Some(&self.entries[k].1)
        } else {
            None
        }
    }

    /// Records `channel` as the one that holds `domain`, in place of any before.
    pub fn insert(&mut self, domain: String, channel: ControlChannel<T>)
        ensures
            final(self).view() == old(self).view().insert(domain@, channel.view()),
    {
        proof {
            use_type_invariant(&*self);
        }
        let ghost old_table = *self;
        let ghost value = channel.view();
        let k = self.position(&domain);
        let ghost key = domain@;
        if k < self.entries.len() {
            let mut entries: Vec<(String, ControlChannel<T>)> = Vec::new();
            std::mem::swap(&mut entries, &mut self.entries);
            entries.set(k, (domain, channel));
            assert forall|i: int, j: int|
                0 <= i < entries@.len() && 0 <= j < entries@.len() && i != j
                    implies #[trigger] entries@[i].0@ != #[trigger] entries@[j].0@ by {
                if i != k && j != k {
                    assert(old_table.entries@[i] == entries@[i]);
                    assert(old_table.entries@[j] == entries@[j]);
                }
                if i == k {
                    assert(old_table.entries@[j] == entries@[j]);
                }
                if j == k {
                    assert(old_table.entries@[i] == entries@[i]);
                }
            }
            self.entries = entries;
            proof {
                assert forall|d: Seq<char>| #[trigger]
                    self.view().contains_key(d) == old_table.view().insert(key, value).contains_key(d)
                by {
                    if d != key && old_table.view().contains_key(d) {
                        let i = old_table.slot(d);
                        assert(self.entries@[i].0@ == d);
                    }
                    if d == key {
                        assert(self.entries@[k as int].0@ == d);
                    }
                }
                assert forall|d: Seq<char>| #[trigger]
                    self.view().contains_key(d) implies self.view()[d] == old_table.view().insert(
                    key,
                    value,
                )[d] by {
                    let i = self.slot(d);
                    if d == key {
                        assert(i == k);
                    } else {
                        let j = old_table.slot(d);
                        assert(i != k);
                        assert(old_table.entries@[i].0@ == d);
                        assert(i == j);
                    }
                }
                assert(self.view() =~= old_table.view().insert(key, value));
            }
        } else {
            let mut entries: Vec<(String, ControlChannel<T>)> = Vec::new();
            std::mem::swap(&mut entries, &mut self.entries);
            entries.push((domain, channel));
            assert forall|i: int, j: int|
                0 <= i < entries@.len() && 0 <= j < entries@.len() && i != j
                    implies #[trigger] entries@[i].0@ != #[trigger] entries@[j].0@ by {
                let n = old_table.entries@.len();
                if i < n && j < n {
                    assert(old_table.entries@[i] == entries@[i]);
                    assert(old_table.entries@[j] == entries@[j]);
                }
                if i == n {
                    assert(old_table.entries@[j] == entries@[j]);
                }
                if j == n {
                    assert(old_table.entries@[i] == entries@[i]);
                }
            }
            self.entries = entries;
            proof {
                let n = old_table.entries@.len();
                assert forall|d: Seq<char>| #[trigger]
                    self.view().contains_key(d) == old_table.view().insert(key, value).contains_key(d)
                by {
                    if d != key && old_table.view().contains_key(d) {
                        let i = old_table.slot(d);
                        assert(self.entries@[i].0@ == d);
                    }
                    if d == key {
                        assert(self.entries@[n as int].0@ == d);
                    }
                    if self.view().contains_key(d) && d != key {
                        let i = choose|i: int|
                            0 <= i < self.entries@.len() && self.entries@[i].0@ == d;
                        assert(i < n);
                        assert(old_table.entries@[i].0@ == d);
                    }
                }
                assert forall|d: Seq<char>| #[trigger]
                    self.view().contains_key(d) implies self.view()[d] == old_table.view().insert(
                    key,
                    value,
                )[d] by {
                    let i = self.slot(d);
                    if d == key {
                        assert(i == n);
                    } else {
                        let j = old_table.slot(d);
                        assert(old_table.entries@[i].0@ == d);
                        assert(i == j);
                    }
                }
                assert(self.view() =~= old_table.view().insert(key, value));
            }
        }
    }
}

/// What the server does with a new connection, decided by the first packet on it.
pub enum Opening {
    /// The client asks for a domain and none is free: the connection is dropped.
    NoDomain,
    /// The client asks for a domain and gets `domain_port`, taken from the pool:
    /// the server sends `reply` and waits for the client's acknowledgement.
    Offer { domain_port: DomainPort, reply: Vec<u8> },
    /// The connection is a data channel for `domain`.
    Data { domain: String },
    /// Any other packet, or bytes that hold none: the connection is dropped.
    Unexpected,
}

/// Decides what a new connection is for from the bytes first read on it. Only a
/// request for a domain touches the pool: it takes the domain added last and
/// offers it in a `Success` packet.
pub fn open_connection(pool: &mut DomainPool, first: &[u8]) -> (r: Opening)
    ensures
        wire_decoding(first@) != Some(PacketView::Init) ==> final(pool)@ == old(pool)@,
        wire_decoding(first@) == Some(PacketView::Init) && old(pool)@.len() == 0 ==> r is NoDomain
            && final(pool)@ == old(pool)@,
        wire_decoding(first@) == Some(PacketView::Init) && old(pool)@.len() > 0 ==> (r matches Opening::Offer { domain_port, reply }
            && domain_port_view(domain_port) == old(pool)@.last()
            && reply@ == wire_encoding(PacketView::Success(domain_port.0@)))
            && final(pool)@ == old(pool)@.drop_last(),
        wire_decoding(first@) matches Some(PacketView::DataInit(d)) ==> (r matches Opening::Data { domain }
            && domain@ == d),
        !(wire_decoding(first@) matches Some(PacketView::Init))
            && !(wire_decoding(first@) matches Some(PacketView::DataInit(_))) ==> r is Unexpected,
{
    match Packet::parse(first) {
        Some(Packet::Init) => {
            match pool.take() {
                None => Opening::NoDomain,
                Some(domain_port) => {
                    let offer = Packet::Success(domain_port.0.clone());
                    let reply = offer.encode();
                    Opening::Offer { domain_port, reply }
                },
            }
        },
        Some(Packet::DataInit(domain)) => Opening::Data { domain },
        _ => Opening::Unexpected,
    }
}

/// Whether the bytes read after an offer hold the client's acknowledgement.
pub fn acknowledged(second: &[u8]) -> (r: bool)
    ensures
        r == (wire_decoding(second@) == Some(PacketView::Ack)),
{
    match Packet::parse(second) {
        Some(Packet::Ack) => true,
        _ => false,
    }
}

/// After a channel is recorded for a domain, looking the domain up finds that
/// channel, and looking up any other domain finds what it found before.
pub proof fn lemma_insert_then_get<T>(
    table: Map<Seq<char>, (Seq<char>, u16, T)>,
    domain: Seq<char>,
    channel: (Seq<char>, u16, T),
    other: Seq<char>,
)
    requires
        other != domain,
    ensures
        table.insert(domain, channel).contains_key(domain),
        table.insert(domain, channel)[domain] == channel,
        table.insert(domain, channel).contains_key(other) == table.contains_key(other),
        table.contains_key(other) ==> table.insert(domain, channel)[other] == table[other],
{
}

} // verus!
