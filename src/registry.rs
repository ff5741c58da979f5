use crate::message::{MessageModel, MessageType};
use vstd::prelude::*;
use vstd::string::StringExecFns;

verus! {

/// The pseudonym a connection carries until its handshake arrives.
pub open spec fn blank_pseudonym() -> Seq<char> {
    "[blank]"@
}

/// The text that announces a newcomer by name.
pub open spec fn joined_text(name: Seq<char>) -> Seq<char> {
    name + " has entered the chat."@
}

/// The model of one connection record: its remote address, which identifies
/// it, and the name it is shown under.
pub struct Peer {
    pub addr: Seq<char>,
    pub pseudonym: Seq<char>,
}

/// One connection record.
pub struct Connection {
    pub addr: String,
    pub pseudonym: String,
}

impl View for Connection {
    type V = Peer;

    open spec fn view(&self) -> Peer {
        Peer { addr: self.addr@, pseudonym: self.pseudonym@ }
    }
}

/// The model of a broadcast: a message and the addresses it goes to, in order.
pub struct BroadcastModel {
    pub message: MessageModel,
    pub recipients: Seq<Seq<char>>,
}

/// A message to be sent to each of the listed addresses.
pub struct Broadcast {
    pub message: MessageType,
    pub recipients: Vec<String>,
}

/// The characters of each string.
pub open spec fn string_views(v: Seq<String>) -> Seq<Seq<char>> {
    v.map_values(|s: String| s@)
}

impl View for Broadcast {
    type V = BroadcastModel;

    open spec fn view(&self) -> BroadcastModel {
        BroadcastModel { message: self.message@, recipients: string_views(self.recipients@) }
    }
}

/// The model of a broadcast that may not happen.
pub open spec fn notice_view(b: Option<Broadcast>) -> Option<BroadcastModel> {
    match b {
        Some(b) => Some(b@),
        None => None,
    }
}

/// No two records share an address.
pub open spec fn unique_addresses(peers: Seq<Peer>) -> bool {
    forall|i: int, j: int|
        0 <= i < peers.len() && 0 <= j < peers.len() && #[trigger] peers[i].addr
            == #[trigger] peers[j].addr ==> i == j
}

/// A record has this address.
pub open spec fn has_addr(peers: Seq<Peer>, a: Seq<char>) -> bool {
    exists|i: int| 0 <= i < peers.len() && #[trigger] peers[i].addr == a
}

/// The position of the record with this address.
pub open spec fn index_of(peers: Seq<Peer>, a: Seq<char>) -> int {
    choose|i: int| 0 <= i < peers.len() && #[trigger] peers[i].addr == a
}

/// The addresses of all records, in order.
pub open spec fn addresses(peers: Seq<Peer>) -> Seq<Seq<char>> {
    peers.map_values(|p: Peer| p.addr)
}

/// The addresses of all records but the one with address `a`, in order.
pub open spec fn others(peers: Seq<Peer>, a: Seq<char>) -> Seq<Seq<char>>
    decreases peers.len(),
{
    if peers.len() == 0 {
        Seq::empty()
    } else {
        let rest = others(peers.drop_last(), a);
        if peers.last().addr == a {
            rest
        } else {
            rest.push(peers.last().addr)
        }
    }
}

/// The records after `register(a)`.
pub open spec fn after_register(peers: Seq<Peer>, a: Seq<char>) -> Seq<Peer> {
    if has_addr(peers, a) {
        peers
    } else {
        peers.push(Peer { addr: a, pseudonym: blank_pseudonym() })
    }
}

/// The records after `set_pseudonym(a, name)`.
pub open spec fn after_set_pseudonym(peers: Seq<Peer>, a: Seq<char>, name: Seq<char>) -> Seq<
    Peer,
> {
    if has_addr(peers, a) {
        peers.update(index_of(peers, a), Peer { addr: a, pseudonym: name })
    } else {
        peers
    }
}

/// What `set_pseudonym(a, name)` broadcasts: the newcomer's arrival, to
/// every other connection.
pub open spec fn join_notice(peers: Seq<Peer>, a: Seq<char>, name: Seq<char>) -> Option<
    BroadcastModel,
> {
    if has_addr(peers, a) {
        Some(
            BroadcastModel {
                message: MessageModel::Info(joined_text(name)),
                recipients: others(peers, a),
            },
        )
    } else {
        None
    }
}

/// What `broadcast_chat(p, t)` sends: the chat message, to every connection.
pub open spec fn chat_notice(peers: Seq<Peer>, p: Seq<char>, t: Seq<char>) -> BroadcastModel {
    BroadcastModel { message: MessageModel::Message(p, t), recipients: addresses(peers) }
}

/// What `broadcast_file(sender, n, d)` sends: the file, to every connection
/// but the sender's.
pub open spec fn file_notice(peers: Seq<Peer>, sender: Seq<char>, n: Seq<char>, d: Seq<u8>) -> BroadcastModel {
    BroadcastModel { message: MessageModel::File(n, d), recipients: others(peers, sender) }
}

/// The records after `remove(a)`.
pub open spec fn after_remove(peers: Seq<Peer>, a: Seq<char>) -> Seq<Peer> {
    if has_addr(peers, a) {
        peers.remove(index_of(peers, a))
    } else {
        peers
    }
}

/// What `remove(a)` broadcasts: the departure, under the removed record's
/// pseudonym, to every connection that remains.
pub open spec fn leave_notice(peers: Seq<Peer>, a: Seq<char>) -> Option<BroadcastModel> {
    if has_addr(peers, a) {
        Some(
            BroadcastModel {
                message: MessageModel::Leave(peers[index_of(peers, a)].pseudonym),
                recipients: addresses(after_remove(peers, a)),
            },
        )
    } else {
        None
    }
}

/// The server's collection of active connections, in the order they were
/// accepted, at most one per address.
pub struct Registry {
    clients: Vec<Connection>,
}

impl View for Registry {
    type V = Seq<Peer>;

    closed spec fn view(&self) -> Seq<Peer> {
        self.clients@.map_values(|c: Connection| c@)
    }
}

impl Registry {
    /// Addresses are unique.
    pub open spec fn wf(&self) -> bool {
        unique_addresses(self@)
    }

    /// An empty registry.
    pub fn new() -> (r: Registry)
        ensures
            r@ == Seq::<Peer>::empty(),
            r.wf(),
    {
        let r = Registry { clients: Vec::new() };
        assert(r@ =~= Seq::<Peer>::empty());
        r
    }

    /// The position of the record with address `addr`.
    fn find(&self, addr: &str) -> (r: Option<usize>)
        requires
            self.wf(),
        ensures
            match r {
                Some(i) => has_addr(self@, addr@) && i == index_of(self@, addr@),
                None => !has_addr(self@, addr@),
            },
    {
        let key = addr.to_owned();
        let mut i: usize = 0;
        while i < self.clients.len()
            invariant
                i <= self.clients@.len(),
                key@ == addr@,
                self.wf(),
                forall|j: int| 0 <= j < i ==> self@[j].addr != addr@,
            decreases self.clients@.len() - i,
        {
            if self.clients[i].addr == key {
                proof {
                    assert(self@[i as int].addr == addr@);
                    assert(has_addr(self@, addr@));
                    let k = index_of(self@, addr@);
                    assert(self@[k].addr == self@[i as int].addr);
                }
                return Some(i);
            }
            i = i + 1;
        }
        None
    }

    /// The addresses of the records, skipping `skip` when it is given.
    fn addresses_except(&self, skip: Option<&str>) -> (r: Vec<String>)
        ensures
            string_views(r@) == match skip {
                Some(a) => others(self@, a@),
                None => addresses(self@),
            },
    {
        let key = match skip {
            Some(a) => Some(a.to_owned()),
            None => None,
        };
        let mut out: Vec<String> = Vec::new();
        let mut i: usize = 0;
        while i < self.clients.len()
            invariant
                i <= self.clients@.len(),
                key matches Some(k) ==> skip matches Some(a) && k@ == a@,
                key is None ==> skip is None,
                string_views(out@) == match skip {
                    Some(a) => others(self@.take(i as int), a@),
                    None => addresses(self@.take(i as int)),
                },
            decreases self.clients@.len() - i,
        {
            let c = &self.clients[i];
            let ghost before = out@;
            let keep = match &key {
                Some(k) => c.addr != *k,
                None => true,
            };
            if keep {
                out.push(c.addr.clone());
            }
            proof {
                let t = self@.take(i + 1);
                assert(t.drop_last() =~= self@.take(i as int));
                assert(t.last() == c@);
                if keep {
                    assert(string_views(out@) =~= string_views(before).push(c.addr@));
                } else {
                    assert(string_views(out@) =~= string_views(before));
                }
                assert(addresses(t) =~= addresses(self@.take(i as int)).push(c.addr@));
            }
            i = i + 1;
        }
        assert(self@.take(i as int) =~= self@);
        out
    }

    /// How many connections are registered.
    pub fn len(&self) -> (n: usize)
        ensures
            n == self@.len(),
    {
        self.clients.len()
    }

    /// The registered addresses, in order.
    pub fn addresses(&self) -> (r: Vec<String>)
        ensures
            string_views(r@) == addresses(self@),
    {
        self.addresses_except(None)
    }

    /// The pseudonym of the connection at `addr`, if it is registered.
    pub fn pseudonym_of(&self, addr: &str) -> (r: Option<String>)
        requires
            self.wf(),
        ensures
            match r {
                Some(p) => has_addr(self@, addr@) && p@ == self@[index_of(self@, addr@)].pseudonym,
                None => !has_addr(self@, addr@),
            },
    {
        match self.find(addr) {
            Some(i) => Some(self.clients[i].pseudonym.clone()),
            None => None,
        }
    }

    /// Adds a record for a newly accepted connection, under the placeholder
    /// pseudonym. Nothing is broadcast. An address that is already
    /// registered is left as it is, and `false` is returned.
    pub fn register(&mut self, addr: String) -> (added: bool)
        requires
            old(self).wf(),
        ensures
            final(self).wf(),
            final(self)@ == after_register(old(self)@, addr@),
            added == !has_addr(old(self)@, addr@),
    {
        match self.find(addr.as_str()) {
            Some(_) => false,
            None => {
                let c = Connection { addr, pseudonym: "[blank]".to_owned() };
                self.clients.push(c);
                proof {
                    assert(self@ =~= old(self)@.push(c@));
                    assert forall|i: int, j: int|
                        0 <= i < self@.len() && 0 <= j < self@.len() && #[trigger] self@[i].addr
                            == #[trigger] self@[j].addr implies i == j by {
                        if i < old(self)@.len() && j == old(self)@.len() {
                            assert(old(self)@[i].addr == addr@);
                        }
                        if j < old(self)@.len() && i == old(self)@.len() {
                            assert(old(self)@[j].addr == addr@);
                        }
                    }
                }
                true
            },
        }
    }

    /// Gives the connection at `addr` its display name, and announces it as
    /// "`name` has entered the chat." to every other connection. An address
    /// that is not registered (it was removed meanwhile) changes nothing and
    /// gives no broadcast.
    pub fn set_pseudonym(&mut self, addr: &str, name: String) -> (r: Option<Broadcast>)
        requires
            old(self).wf(),
        ensures
            final(self).wf(),
            final(self)@ == after_set_pseudonym(old(self)@, addr@, name@),
            notice_view(r) == join_notice(old(self)@, addr@, name@),
    {
        match self.find(addr) {
            None => None,
            Some(i) => {
                let recipients = self.addresses_except(Some(addr));
                let mut text = name.clone();
                text.append(" has entered the chat.");
                let c = Connection { addr: self.clients[i].addr.clone(), pseudonym: name };
                self.clients.set(i, c);
                proof {
                    assert(self@ =~= old(self)@.update(i as int, c@));
                    assert forall|j: int| 0 <= j < self@.len() implies #[trigger] self@[j].addr
                        == old(self)@[j].addr by {}
                }
                Some(Broadcast { message: MessageType::Info(text), recipients })
            },
        }
    }

    /// The chat message `pseudonym: text`, to every registered connection,
    /// the author's own included.
    pub fn broadcast_chat(&self, pseudonym: String, text: String) -> (r: Broadcast)
        ensures
            r@ == chat_notice(self@, pseudonym@, text@),
    {
        let recipients = self.addresses_except(None);
        Broadcast { message: MessageType::Message(pseudonym, text), recipients }
    }

    /// The file `name` with `content`, to every registered connection but
    /// the sender's.
    pub fn broadcast_file(&self, sender: &str, name: String, content: Vec<u8>) -> (r: Broadcast)
        ensures
            r@ == file_notice(self@, sender@, name@, content@),
    {
        let recipients = self.addresses_except(Some(sender));
        Broadcast { message: MessageType::File(name, content), recipients }
    }

    /// Removes the record at `addr`, if there is one, and then announces its
    /// departure under its pseudonym to every connection that remains.
    /// Removing an address that is not registered changes nothing and gives
    /// no broadcast.
    pub fn remove(&mut self, addr: &str) -> (r: Option<Broadcast>)
        requires
            old(self).wf(),
        ensures
            final(self).wf(),
            final(self)@ == after_remove(old(self)@, addr@),
            notice_view(r) == leave_notice(old(self)@, addr@),
    {
        match self.find(addr) {
            None => None,
            Some(i) => {
                let c = self.clients.remove(i);
                proof {
                    assert(self@ =~= old(self)@.remove(i as int));
                    assert forall|a: int, b: int|
                        0 <= a < self@.len() && 0 <= b < self@.len() && #[trigger] self@[a].addr
                            == #[trigger] self@[b].addr implies a == b by {
                        let a2 = if a < i { a } else { a + 1 };
                        let b2 = if b < i { b } else { b + 1 };
                        assert(old(self)@[a2].addr == old(self)@[b2].addr);
                    }
                }
                let recipients = self.addresses_except(None);
                Some(Broadcast { message: MessageType::Leave(c.pseudonym), recipients })
            },
        }
    }
}

/// Dropping the last record keeps addresses unique.
proof fn lemma_unique_init(peers: Seq<Peer>)
    requires
        peers.len() > 0,
        unique_addresses(peers),
    ensures
        unique_addresses(peers.drop_last()),
{
    let init = peers.drop_last();
    assert forall|i: int, j: int|
        0 <= i < init.len() && 0 <= j < init.len() && #[trigger] init[i].addr
            == #[trigger] init[j].addr implies i == j by {
        assert(peers[i].addr == peers[j].addr);
    }
}

/// An address is registered when it is among all but the last record or is the last one's.
proof fn lemma_has_addr_init(peers: Seq<Peer>, a: Seq<char>)
    requires
        peers.len() > 0,
    ensures
        has_addr(peers, a) <==> has_addr(peers.drop_last(), a) || peers.last().addr == a,
{
    let init = peers.drop_last();
    if has_addr(peers, a) {
        let i = choose|i: int| 0 <= i < peers.len() && #[trigger] peers[i].addr == a;
        if i < init.len() {
            assert(init[i].addr == a);
        }
    }
    if has_addr(init, a) {
        let i = choose|i: int| 0 <= i < init.len() && #[trigger] init[i].addr == a;
        assert(peers[i].addr == a);
    }
    if peers.last().addr == a {
        assert(peers[peers.len() - 1].addr == a);
    }
}

/// The others of `a` are one fewer than the records when `a` is registered,
/// as many when it is not.
pub proof fn lemma_others_len(peers: Seq<Peer>, a: Seq<char>)
    requires
        unique_addresses(peers),
    ensures
        others(peers, a).len() == peers.len() - (if has_addr(peers, a) {
            1int
        } else {
            0int
        }),
    decreases peers.len(),
{
    if peers.len() > 0 {
        let init = peers.drop_last();
        lemma_unique_init(peers);
        lemma_others_len(init, a);
        lemma_has_addr_init(peers, a);
        if peers.last().addr == a && has_addr(init, a) {
            let i = choose|i: int| 0 <= i < init.len() && #[trigger] init[i].addr == a;
            assert(peers[i].addr == peers[peers.len() - 1].addr);
        }
    }
}

/// The others of `a` are the registered addresses but `a`.
pub proof fn lemma_others_members(peers: Seq<Peer>, a: Seq<char>)
    ensures
        forall|x: Seq<char>| #[trigger]
            others(peers, a).contains(x) <==> x != a && has_addr(peers, x),
    decreases peers.len(),
{
    if peers.len() > 0 {
        let init = peers.drop_last();
        lemma_others_members(init, a);
        assert forall|x: Seq<char>| #[trigger]
            others(peers, a).contains(x) <==> x != a && has_addr(peers, x) by {
            lemma_has_addr_init(peers, x);
            let rest = others(init, a);
            if peers.last().addr != a {
                assert(others(peers, a) == rest.push(peers.last().addr));
                if rest.push(peers.last().addr).contains(x) && !rest.contains(x) {
                    let k = choose|k: int|
                        0 <= k < rest.len() + 1 && rest.push(peers.last().addr)[k] == x;
                    assert(k == rest.len());
                }
                if rest.contains(x) {
                    let k = choose|k: int| 0 <= k < rest.len() && rest[k] == x;
                    assert(rest.push(peers.last().addr)[k] == x);
                }
                if x == peers.last().addr {
                    assert(rest.push(peers.last().addr)[rest.len() as int] == x);
                }
            }
        }
    } else {
        assert forall|x: Seq<char>| #[trigger]
            others(peers, a).contains(x) <==> x != a && has_addr(peers, x) by {}
    }
}

/// Removing twice: removing a registered address broadcasts its departure
/// once; removing it again changes nothing and broadcasts nothing.
pub proof fn lemma_remove_twice(peers: Seq<Peer>, a: Seq<char>)
    requires
        unique_addresses(peers),
    ensures
        has_addr(peers, a) ==> leave_notice(peers, a) is Some,
        leave_notice(after_remove(peers, a), a) is None,
        after_remove(after_remove(peers, a), a) == after_remove(peers, a),
{
    if has_addr(peers, a) {
        let i = index_of(peers, a);
        let rest = peers.remove(i);
        if has_addr(rest, a) {
            let j = choose|j: int| 0 <= j < rest.len() && #[trigger] rest[j].addr == a;
            let j2 = if j < i { j } else { j + 1 };
            assert(peers[j2].addr == peers[i].addr);
        }
    }
}

/// Fan-out: with N connections registered, a chat message goes to all N of
/// them, in order; a file goes to N - 1 of them, every one but the sender's.
pub proof fn lemma_fan_out(
    peers: Seq<Peer>,
    sender: Seq<char>,
    p: Seq<char>,
    t: Seq<char>,
    n: Seq<char>,
    d: Seq<u8>,
)
    requires
        unique_addresses(peers),
        has_addr(peers, sender),
    ensures
        chat_notice(peers, p, t).recipients.len() == peers.len(),
        forall|i: int|
            0 <= i < peers.len() ==> chat_notice(peers, p, t).recipients[i] == #[trigger] peers[i].addr,
        file_notice(peers, sender, n, d).recipients.len() == peers.len() - 1,
        !file_notice(peers, sender, n, d).recipients.contains(sender),
        forall|i: int|
            0 <= i < peers.len() && #[trigger] peers[i].addr != sender ==> file_notice(
                peers,
                sender,
                n,
                d,
            ).recipients.contains(peers[i].addr),
{
    lemma_others_len(peers, sender);
    lemma_others_members(peers, sender);
    assert forall|i: int| 0 <= i < peers.len() && #[trigger] peers[i].addr != sender implies file_notice(
        peers,
        sender,
        n,
        d,
    ).recipients.contains(peers[i].addr) by {
        assert(has_addr(peers, peers[i].addr));
    }
}

} // verus!
