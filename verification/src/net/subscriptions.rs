//! Who is connected, who they are and what they have asked to receive.

use vstd::prelude::*;
use vstd::hash_map::StringHashMap;
use vstd::hash_set::StringHashSet;
use std::collections::HashMap;
use crate::net::types::{Event, Method, WsClientMessage};

verus! {

/// The public streams a connection can subscribe to, symbol by symbol.
#[derive(Debug, Clone, Copy, PartialEq, Eq, Hash, Structural)]
pub enum Feed {
    Trade,
    Ticker,
    Depth,
}

/// One connection, known by the address it came from.
pub struct UserInfo {
    addr: String,
    user_id: Option<u64>,
    subscribed_trades: StringHashSet,
    subscribed_tickers: StringHashSet,
    subscribed_depth: StringHashSet,
}

/// What is known of one connection: the user it speaks for, if it has said
/// so, and the symbols it follows on each feed.
pub struct UserInfoView {
    pub user_id: Option<u64>,
    pub trades: Set<Seq<char>>,
    pub tickers: Set<Seq<char>>,
    pub depth: Set<Seq<char>>,
}

impl UserInfoView {
    /// A connection that has said nothing yet.
    pub open spec fn fresh() -> UserInfoView {
        UserInfoView {
            user_id: None,
            trades: Set::empty(),
            tickers: Set::empty(),
            depth: Set::empty(),
        }
    }

    /// The symbols followed on `feed`.
    pub open spec fn symbols(self, feed: Feed) -> Set<Seq<char>> {
        match feed {
            Feed::Trade => self.trades,
            Feed::Ticker => self.tickers,
            Feed::Depth => self.depth,
        }
    }

    pub open spec fn with_symbols(self, feed: Feed, symbols: Set<Seq<char>>) -> UserInfoView {
        match feed {
            Feed::Trade => UserInfoView { trades: symbols, ..self },
            Feed::Ticker => UserInfoView { tickers: symbols, ..self },
            Feed::Depth => UserInfoView { depth: symbols, ..self },
        }
    }
}

impl View for UserInfo {
    type V = UserInfoView;

    closed spec fn view(&self) -> UserInfoView {
        UserInfoView {
            user_id: self.user_id,
            trades: self.subscribed_trades@,
            tickers: self.subscribed_tickers@,
            depth: self.subscribed_depth@,
        }
    }
}

impl UserInfo {
    pub closed spec fn spec_addr(&self) -> Seq<char> {
        self.addr@
    }

    fn new(addr: &str) -> (info: UserInfo)
        ensures
            info.spec_addr() == addr@,
            info@ == UserInfoView::fresh(),
    {
        UserInfo {
            addr: addr.to_owned(),
            user_id: None,
            subscribed_trades: StringHashSet::new(),
            subscribed_tickers: StringHashSet::new(),
            subscribed_depth: StringHashSet::new(),
        }
    }

    fn follows(&self, feed: Feed, symbol: &str) -> (yes: bool)
        ensures
            yes == self@.symbols(feed).contains(symbol@),
    {
        match feed {
            Feed::Trade => self.subscribed_trades.contains(symbol),
            Feed::Ticker => self.subscribed_tickers.contains(symbol),
            Feed::Depth => self.subscribed_depth.contains(symbol),
        }
    }

    fn follow(&mut self, feed: Feed, symbol: &str)
        ensures
            final(self).spec_addr() == old(self).spec_addr(),
            final(self)@ == old(self)@.with_symbols(
                feed,
                old(self)@.symbols(feed).insert(symbol@),
            ),
    {
        match feed {
            Feed::Trade => {
                self.subscribed_trades.insert(symbol.to_owned());
            },
            Feed::Ticker => {
                self.subscribed_tickers.insert(symbol.to_owned());
            },
            Feed::Depth => {
                self.subscribed_depth.insert(symbol.to_owned());
            },
        }
    }

    fn unfollow(&mut self, feed: Feed, symbol: &str)
        ensures
            final(self).spec_addr() == old(self).spec_addr(),
            final(self)@ == old(self)@.with_symbols(
                feed,
                old(self)@.symbols(feed).remove(symbol@),
            ),
    {
        match feed {
            Feed::Trade => {
                self.subscribed_trades.remove(symbol);
            },
            Feed::Ticker => {
                self.subscribed_tickers.remove(symbol);
            },
            Feed::Depth => {
                self.subscribed_depth.remove(symbol);
            },
        }
    }
}

/// What the registry holds: the connections by address, and the address
/// that speaks for each user.
pub struct UserManagerState {
    pub users: Map<Seq<char>, UserInfoView>,
    pub user_map: Map<u64, Seq<char>>,
}

impl UserManagerState {
    /// The state after the connection at `addr` has been registered: it
    /// starts afresh, also where the address was known.
    pub open spec fn add_user(self, addr: Seq<char>) -> UserManagerState {
        UserManagerState { users: self.users.insert(addr, UserInfoView::fresh()), ..self }
    }

    /// The state after the connection at `addr` has gone, and with it the
    /// route of the user it spoke for.
    pub open spec fn remove_user(self, addr: Seq<char>) -> UserManagerState {
        if !self.users.contains_key(addr) {
            self
        } else {
            UserManagerState {
                users: self.users.remove(addr),
                user_map: match self.users[addr].user_id {
                    Some(uid) => self.user_map.remove(uid),
                    None => self.user_map,
                },
            }
        }
    }

    /// The state after the connection at `addr` has said that it speaks for
    /// `user_id`.
    pub open spec fn associate_user(self, addr: Seq<char>, user_id: u64) -> UserManagerState {
        if !self.users.contains_key(addr) {
            self
        } else {
            UserManagerState {
                users: self.users.insert(
                    addr,
                    UserInfoView { user_id: Some(user_id), ..self.users[addr] },
                ),
                user_map: self.user_map.insert(user_id, addr),
            }
        }
    }

    /// The state after the connection at `addr` has ceased to speak for a
    /// user. The route of that user is kept.
    pub open spec fn disassociate_user(self, addr: Seq<char>) -> UserManagerState {
        if !self.users.contains_key(addr) {
            self
        } else {
            UserManagerState {
                users: self.users.insert(addr, UserInfoView { user_id: None, ..self.users[addr] }),
                ..self
            }
        }
    }

    /// The state after the connection at `addr` has asked for `symbol` on
    /// `feed`.
    pub open spec fn subscribe(
        self,
        addr: Seq<char>,
        feed: Feed,
        symbol: Seq<char>,
    ) -> UserManagerState {
        if !self.users.contains_key(addr) {
            self
        } else {
            let info = self.users[addr];
            UserManagerState {
                users: self.users.insert(
                    addr,
                    info.with_symbols(feed, info.symbols(feed).insert(symbol)),
                ),
                ..self
            }
        }
    }

    /// The state after the connection at `addr` has asked for no more of
    /// `symbol` on `feed`.
    pub open spec fn unsubscribe(
        self,
        addr: Seq<char>,
        feed: Feed,
        symbol: Seq<char>,
    ) -> UserManagerState {
        if !self.users.contains_key(addr) {
            self
        } else {
            let info = self.users[addr];
            UserManagerState {
                users: self.users.insert(
                    addr,
                    info.with_symbols(feed, info.symbols(feed).remove(symbol)),
                ),
                ..self
            }
        }
    }

    /// The connection at `addr` follows `symbol` on `feed`.
    pub open spec fn follows(self, addr: Seq<char>, feed: Feed, symbol: Seq<char>) -> bool {
        self.users.contains_key(addr) && self.users[addr].symbols(feed).contains(symbol)
    }

    /// The address to which an update for `user_id` goes: the one that is
    /// routed for the user, while a connection is registered there.
    pub open spec fn recipient(self, user_id: u64) -> Option<Seq<char>> {
        if self.user_map.contains_key(user_id) && self.users.contains_key(
            self.user_map[user_id],
        ) {
            Some(self.user_map[user_id])
        } else {
            None
        }
    }

    /// The state after the client at `addr` has sent `message`.
    pub open spec fn apply(self, addr: Seq<char>, message: WsClientMessage) -> UserManagerState {
        match (message.event, message.method) {
            (Event::TRADE, Method::SUBSCRIBE) => self.subscribe(addr, Feed::Trade, message.symbol@),
            (Event::TRADE, Method::UNSUBSCRIBE) => self.unsubscribe(
                addr,
                Feed::Trade,
                message.symbol@,
            ),
            (Event::DEPTH, Method::SUBSCRIBE) => self.subscribe(addr, Feed::Depth, message.symbol@),
            (Event::DEPTH, Method::UNSUBSCRIBE) => self.unsubscribe(
                addr,
                Feed::Depth,
                message.symbol@,
            ),
            (Event::TICKER, Method::SUBSCRIBE) => self.subscribe(
                addr,
                Feed::Ticker,
                message.symbol@,
            ),
            (Event::TICKER, Method::UNSUBSCRIBE) => self.unsubscribe(
                addr,
                Feed::Ticker,
                message.symbol@,
            ),
            (Event::ORDERUPDATE, Method::SUBSCRIBE) => self.associate_user(
                addr,
                message.user_id->0,
            ),
            (Event::ORDERUPDATE, Method::UNSUBSCRIBE) => self.disassociate_user(addr),
        }
    }
}

/// The registry of connections. The records are kept in a vector and found
/// through a map from address to place, so that a record is found at once
/// and changed where it is.
pub struct UserManager {
    users: Vec<UserInfo>,
    index: StringHashMap<usize>,
    user_map: HashMap<u64, String>,
}

impl View for UserManager {
    type V = UserManagerState;

    closed spec fn view(&self) -> UserManagerState {
        UserManagerState {
            users: Map::new(
                |addr: Seq<char>| self.index@.contains_key(addr),
                |addr: Seq<char>| self.users@[self.index@[addr] as int]@,
            ),
            user_map: Map::new(
                |uid: u64| self.user_map@.contains_key(uid),
                |uid: u64| self.user_map@[uid]@,
            ),
        }
    }
}

impl UserManager {
    /// The map of places and the records agree: every address leads to the
    /// record of that address, and every record is led to by its address.
    pub closed spec fn wf(&self) -> bool {
        &&& forall|addr: Seq<char>| #[trigger]
            self.index@.contains_key(addr) ==> self.index@[addr] < self.users@.len()
                && self.users@[self.index@[addr] as int].spec_addr() == addr
        &&& forall|i: int|
            0 <= i < self.users@.len() ==> self.index@.contains_key(
                (#[trigger] self.users@[i]).spec_addr(),
            ) && self.index@[self.users@[i].spec_addr()] == i
    }

    pub fn new() -> (manager: UserManager)
        ensures
            manager.wf(),
            manager@.users == Map::<Seq<char>, UserInfoView>::empty(),
            manager@.user_map == Map::<u64, Seq<char>>::empty(),
    {
        let manager = UserManager {
            users: Vec::new(),
            index: StringHashMap::new(),
            user_map: HashMap::new(),
        };
        proof {
            assert(manager@.users =~= Map::<Seq<char>, UserInfoView>::empty());
            assert(manager@.user_map =~= Map::<u64, Seq<char>>::empty());
        }
        manager
    }

    /// Where the connection at `addr` is kept.
    fn find(&self, addr: &str) -> (found: Option<usize>)
        requires
            self.wf(),
        ensures
            match found {
                Some(i) => {
                    &&& i < self.users@.len()
                    &&& self.users@[i as int].spec_addr() == addr@
                    &&& self@.users.contains_key(addr@)
                    &&& self@.users[addr@] == self.users@[i as int]@
                },
                None => !self@.users.contains_key(addr@),
            },
    {
        match self.index.get(addr) {
            Some(i) => Some(*i),
            None => None,
        }
    }

    proof fn lemma_updated(&self, before: &UserManager, i: int)
        requires
            before.wf(),
            0 <= i < before.users@.len(),
            self.index@ == before.index@,
            self.users@.len() == before.users@.len(),
            forall|j: int| 0 <= j < before.users@.len() && j != i ==> self.users@[j] == before.users@[j],
            self.users@[i].spec_addr() == before.users@[i].spec_addr(),
        ensures
            self.wf(),
            self@.users == before@.users.insert(before.users@[i].spec_addr(), self.users@[i]@),
    {
        assert forall|j: int| 0 <= j < self.users@.len() implies self.index@.contains_key(
            (#[trigger] self.users@[j]).spec_addr(),
        ) && self.index@[self.users@[j].spec_addr()] == j by {
            assert(before.users@[j].spec_addr() == self.users@[j].spec_addr());
        }
        assert forall|addr: Seq<char>| #[trigger] self.index@.contains_key(addr) implies self.index@[addr]
            < self.users@.len() && self.users@[self.index@[addr] as int].spec_addr() == addr by {
            let j = before.index@[addr] as int;
            assert(before.users@[j].spec_addr() == addr);
        }
        let addr = before.users@[i].spec_addr();
        let want = before@.users.insert(addr, self.users@[i]@);
        assert forall|a: Seq<char>| #[trigger] self@.users.contains_key(a) implies self@.users[a]
            == want[a] by {
            let j = before.index@[a] as int;
            assert(before.users@[j].spec_addr() == a);
            if a != addr {
                assert(j != i);
            }
        }
        assert(self@.users =~= want);
    }

    proof fn lemma_pushed(&self, before: &UserManager)
        requires
            before.wf(),
            self.users@.len() == before.users@.len() + 1,
            forall|j: int| 0 <= j < before.users@.len() ==> self.users@[j] == before.users@[j],
            !before.index@.contains_key(self.users@.last().spec_addr()),
            self.index@ == before.index@.insert(
                self.users@.last().spec_addr(),
                before.users@.len() as usize,
            ),
            before.users@.len() <= usize::MAX,
        ensures
            self.wf(),
            self@.users == before@.users.insert(
                self.users@.last().spec_addr(),
                self.users@.last()@,
            ),
    {
        let n = before.users@.len() as int;
        let addr = self.users@[n].spec_addr();
        assert forall|j: int| 0 <= j < self.users@.len() implies self.index@.contains_key(
            (#[trigger] self.users@[j]).spec_addr(),
        ) && self.index@[self.users@[j].spec_addr()] == j by {
            if j < n {
                assert(before.users@[j].spec_addr() == self.users@[j].spec_addr());
            }
        }
        assert forall|a: Seq<char>| #[trigger] self.index@.contains_key(a) implies self.index@[a]
            < self.users@.len() && self.users@[self.index@[a] as int].spec_addr() == a by {
            if a != addr {
                let j = before.index@[a] as int;
                assert(before.users@[j].spec_addr() == a);
            }
        }
        let want = before@.users.insert(addr, self.users@[n]@);
        assert forall|a: Seq<char>| #[trigger] self@.users.contains_key(a) implies self@.users[a]
            == want[a] by {
            if a != addr {
                let j = before.index@[a] as int;
                assert(before.users@[j].spec_addr() == a);
            }
        }
        assert(self@.users =~= want);
    }

    proof fn lemma_removed(&self, before: &UserManager, i: int)
        requires
            before.wf(),
            0 <= i < before.users@.len(),
            self.users@ == before.users@.update(i, before.users@.last()).drop_last(),
            self.index@ == if i < before.users@.len() - 1 {
                before.index@.remove(before.users@[i].spec_addr()).insert(
                    before.users@.last().spec_addr(),
                    i as usize,
                )
            } else {
                before.index@.remove(before.users@[i].spec_addr())
            },
        ensures
            self.wf(),
            self@.users == before@.users.remove(before.users@[i].spec_addr()),
    {
        let last = before.users@.len() - 1;
        let gone = before.users@[i].spec_addr();
        let moved = before.users@[last].spec_addr();
        assert(before.index@[gone] == i);
        assert(before.index@[moved] == last);
        assert forall|j: int| 0 <= j < self.users@.len() implies self.index@.contains_key(
            (#[trigger] self.users@[j]).spec_addr(),
        ) && self.index@[self.users@[j].spec_addr()] == j by {
            if j == i {
                assert(self.users@[j] == before.users@[last]);
            } else {
                assert(self.users@[j] == before.users@[j]);
                assert(before.index@[before.users@[j].spec_addr()] == j);
            }
        }
        assert forall|a: Seq<char>| #[trigger] self.index@.contains_key(a) implies self.index@[a]
            < self.users@.len() && self.users@[self.index@[a] as int].spec_addr() == a by {
            if i < last && a == moved {
                assert(self.users@[i] == before.users@[last]);
            } else {
                let j = before.index@[a] as int;
                assert(before.users@[j].spec_addr() == a);
                assert(j != i);
                if j == last {
                    assert(a == moved);
                }
                assert(self.users@[j] == before.users@[j]);
            }
        }
        let want = before@.users.remove(gone);
        assert forall|a: Seq<char>| #[trigger] self@.users.contains_key(a) implies self@.users[a]
            == want[a] by {
            if i < last && a == moved {
                assert(self.users@[i] == before.users@[last]);
            } else {
                let j = before.index@[a] as int;
                assert(before.users@[j].spec_addr() == a);
                assert(j != i);
                if j == last {
                    assert(a == moved);
                }
                assert(self.users@[j] == before.users@[j]);
            }
        }
        assert(self@.users =~= want);
    }

    /// Registers the connection at `user_addr`. A connection that was
    /// registered there is replaced and starts afresh.
    pub fn add_user(&mut self, user_addr: &str)
        requires
            old(self).wf(),
        ensures
            final(self).wf(),
            final(self)@ == old(self)@.add_user(user_addr@),
    {
        match self.find(user_addr) {
            Some(i) => {
                self.users[i] = UserInfo::new(user_addr);
                proof {
                    self.lemma_updated(old(self), i as int);
                }
            },
            None => {
                let place: usize = self.users.len();
                self.users.push(UserInfo::new(user_addr));
                self.index.insert(user_addr.to_owned(), place);
                proof {
                    self.lemma_pushed(old(self));
                }
            },
        }
        proof {
            assert(self@.user_map =~= old(self)@.user_map);
        }
    }

    /// Forgets the connection at `user_addr`, and the route of the user it
    /// spoke for.
    pub fn remove_user(&mut self, user_addr: &str)
        requires
            old(self).wf(),
        ensures
            final(self).wf(),
            final(self)@ == old(self)@.remove_user(user_addr@),
    {
        match self.find(user_addr) {
            Some(i) => {
                let info = self.users.swap_remove(i);
                self.index.remove(user_addr);
                if i < self.users.len() {
                    let moved = self.users[i].addr.clone();
                    self.index.insert(moved, i);
                }
                match info.user_id {
                    Some(uid) => {
                        self.user_map.remove(&uid);
                    },
                    None => {},
                }
                proof {
                    self.lemma_removed(old(self), i as int);
                    assert(self@.user_map =~= old(self)@.remove_user(user_addr@).user_map);
                }
            },
            None => {
                proof {
                    assert(self@.users =~= old(self)@.users);
                    assert(self@.user_map =~= old(self)@.user_map);
                }
            },
        }
    }

    /// Notes that the connection at `user_addr` speaks for `user_id`, and
    /// routes the user's updates there.
    pub fn associate_user(&mut self, user_addr: &str, user_id: u64)
        requires
            old(self).wf(),
        ensures
            final(self).wf(),
            final(self)@ == old(self)@.associate_user(user_addr@, user_id),
    {
        match self.find(user_addr) {
            Some(i) => {
                self.users[i].user_id = Some(user_id);
                self.user_map.insert(user_id, user_addr.to_owned());
                proof {
                    self.lemma_updated(old(self), i as int);
                    assert(self@.user_map =~= old(self)@.user_map.insert(user_id, user_addr@));
                }
            },
            None => {
                proof {
                    assert(self@.users =~= old(self)@.users);
                    assert(self@.user_map =~= old(self)@.user_map);
                }
            },
        }
    }

    /// Notes that the connection at `user_addr` speaks for no user. The
    /// route of the user it spoke for is kept.
    pub fn disassociate_user(&mut self, user_addr: &str)
        requires
            old(self).wf(),
        ensures
            final(self).wf(),
            final(self)@ == old(self)@.disassociate_user(user_addr@),
    {
        match self.find(user_addr) {
            Some(i) => {
                self.users[i].user_id = None;
                proof {
                    self.lemma_updated(old(self), i as int);
                    assert(self@.user_map =~= old(self)@.user_map);
                }
            },
            None => {
                proof {
                    assert(self@.users =~= old(self)@.users);
                    assert(self@.user_map =~= old(self)@.user_map);
                }
            },
        }
    }

    /// Notes that the connection at `user_addr` follows `symbol` on `feed`.
    pub fn subscribe(&mut self, user_addr: &str, feed: Feed, symbol: &str)
        requires
            old(self).wf(),
        ensures
            final(self).wf(),
            final(self)@ == old(self)@.subscribe(user_addr@, feed, symbol@),
    {
        match self.find(user_addr) {
            Some(i) => {
                self.users[i].follow(feed, symbol);
                proof {
                    self.lemma_updated(old(self), i as int);
                    assert(self@.user_map =~= old(self)@.user_map);
                }
            },
            None => {
                proof {
                    assert(self@.users =~= old(self)@.users);
                    assert(self@.user_map =~= old(self)@.user_map);
                }
            },
        }
    }

    /// Notes that the connection at `user_addr` no longer follows `symbol`
    /// on `feed`.
    pub fn unsubscribe(&mut self, user_addr: &str, feed: Feed, symbol: &str)
        requires
            old(self).wf(),
        ensures
            final(self).wf(),
            final(self)@ == old(self)@.unsubscribe(user_addr@, feed, symbol@),
    {
        match self.find(user_addr) {
            Some(i) => {
                self.users[i].unfollow(feed, symbol);
                proof {
                    self.lemma_updated(old(self), i as int);
                    assert(self@.user_map =~= old(self)@.user_map);
                }
            },
            None => {
                proof {
                    assert(self@.users =~= old(self)@.users);
                    assert(self@.user_map =~= old(self)@.user_map);
                }
            },
        }
    }

    pub fn subscribe_trade(&mut self, user_addr: &str, symbol: &str)
        requires
            old(self).wf(),
        ensures
            final(self).wf(),
            final(self)@ == old(self)@.subscribe(user_addr@, Feed::Trade, symbol@),
    {
        self.subscribe(user_addr, Feed::Trade, symbol)
    }

    pub fn unsubscribe_trade(&mut self, user_addr: &str, symbol: &str)
        requires
            old(self).wf(),
        ensures
            final(self).wf(),
            final(self)@ == old(self)@.unsubscribe(user_addr@, Feed::Trade, symbol@),
    {
        self.unsubscribe(user_addr, Feed::Trade, symbol)
    }

    pub fn subscribe_ticker(&mut self, user_addr: &str, symbol: &str)
        requires
            old(self).wf(),
        ensures
            final(self).wf(),
            final(self)@ == old(self)@.subscribe(user_addr@, Feed::Ticker, symbol@),
    {
        self.subscribe(user_addr, Feed::Ticker, symbol)
    }

    pub fn unsubscribe_ticker(&mut self, user_addr: &str, symbol: &str)
        requires
            old(self).wf(),
        ensures
            final(self).wf(),
            final(self)@ == old(self)@.unsubscribe(user_addr@, Feed::Ticker, symbol@),
    {
        self.unsubscribe(user_addr, Feed::Ticker, symbol)
    }

    pub fn subscribe_depth(&mut self, user_addr: &str, symbol: &str)
        requires
            old(self).wf(),
        ensures
            final(self).wf(),
            final(self)@ == old(self)@.subscribe(user_addr@, Feed::Depth, symbol@),
    {
        self.subscribe(user_addr, Feed::Depth, symbol)
    }

    pub fn unsubscribe_depth(&mut self, user_addr: &str, symbol: &str)
        requires
            old(self).wf(),
        ensures
            final(self).wf(),
            final(self)@ == old(self)@.unsubscribe(user_addr@, Feed::Depth, symbol@),
    {
        self.unsubscribe(user_addr, Feed::Depth, symbol)
    }

    /// Applies the message that the client at `user_addr` has sent. A
    /// request for order updates must say whose.
    pub fn apply(&mut self, user_addr: &str, message: &WsClientMessage)
        requires
            old(self).wf(),
            message.event == Event::ORDERUPDATE && message.method == Method::SUBSCRIBE
                ==> message.user_id is Some,
        ensures
            final(self).wf(),
            final(self)@ == old(self)@.apply(user_addr@, *message),
    {
        match message.event {
            Event::TRADE => match message.method {
                Method::SUBSCRIBE => self.subscribe_trade(user_addr, message.symbol.as_str()),
                Method::UNSUBSCRIBE => self.unsubscribe_trade(user_addr, message.symbol.as_str()),
            },
            Event::DEPTH => match message.method {
                Method::SUBSCRIBE => self.subscribe_depth(user_addr, message.symbol.as_str()),
                Method::UNSUBSCRIBE => self.unsubscribe_depth(user_addr, message.symbol.as_str()),
            },
            Event::TICKER => match message.method {
                Method::SUBSCRIBE => self.subscribe_ticker(user_addr, message.symbol.as_str()),
                Method::UNSUBSCRIBE => self.unsubscribe_ticker(user_addr, message.symbol.as_str()),
            },
            Event::ORDERUPDATE => match message.method {
                Method::SUBSCRIBE => self.associate_user(user_addr, message.user_id.unwrap()),
                Method::UNSUBSCRIBE => self.disassociate_user(user_addr),
            },
        }
    }

    /// The user that the connection at `user_addr` speaks for.
    pub fn user_of(&self, user_addr: &str) -> (user: Option<u64>)
        requires
            self.wf(),
        ensures
            user == if self@.users.contains_key(user_addr@) {
                self@.users[user_addr@].user_id
            } else {
                None
            },
    {
        match self.find(user_addr) {
            Some(i) => {
                self.users[i].user_id
            },
            None => None,
        }
    }

    /// Whether a connection is registered at `user_addr`.
    pub fn is_connected(&self, user_addr: &str) -> (connected: bool)
        requires
            self.wf(),
        ensures
            connected == self@.users.contains_key(user_addr@),
    {
        self.find(user_addr).is_some()
    }

    /// Whether the connection at `user_addr` follows `symbol` on `feed`.
    pub fn is_subscribed(&self, user_addr: &str, feed: Feed, symbol: &str) -> (yes: bool)
        requires
            self.wf(),
        ensures
            yes == self@.follows(user_addr@, feed, symbol@),
    {
        match self.find(user_addr) {
            Some(i) => {
                self.users[i].follows(feed, symbol)
            },
            None => false,
        }
    }

    /// The address to which an update for `user_id` is to be sent, if
    /// there is one.
    pub fn order_update_recipient(&self, user_id: u64) -> (addr: Option<String>)
        requires
            self.wf(),
        ensures
            match addr {
                Some(a) => self@.recipient(user_id) == Some(a@),
                None => self@.recipient(user_id) is None,
            },
    {
        match self.user_map.get(&user_id) {
            None => None,
            Some(addr) => {
                if self.find(addr.as_str()).is_some() {
                    Some(addr.clone())
                } else {
                    None
                }
            },
        }
    }

    /// The addresses of the connections that follow `symbol` on `feed`,
    /// each once.
    pub fn subscribers(&self, feed: Feed, symbol: &str) -> (addrs: Vec<String>)
        requires
            self.wf(),
        ensures
            forall|a: Seq<char>|
                self@.follows(a, feed, symbol@) <==> exists|k: int|
                    0 <= k < addrs@.len() && (#[trigger] addrs@[k])@ == a,
            forall|k: int, l: int| 0 <= k < l < addrs@.len() ==> addrs@[k]@ != addrs@[l]@,
    {
        let mut addrs: Vec<String> = Vec::new();
        let ghost from: Seq<int> = Seq::empty();
        let mut i: usize = 0;
        while i < self.users.len()
            invariant
                self.wf(),
                i <= self.users@.len(),
                from.len() == addrs@.len(),
                forall|k: int|
                    0 <= k < from.len() ==> 0 <= #[trigger] from[k] < i && addrs@[k]@
                        == self.users@[from[k]].spec_addr() && self.users@[from[k]]@.symbols(
                        feed,
                    ).contains(symbol@),
                forall|k: int, l: int| 0 <= k < l < from.len() ==> from[k] < from[l],
                forall|j: int|
                    0 <= j < i && (#[trigger] self.users@[j])@.symbols(feed).contains(symbol@)
                        ==> exists|k: int| 0 <= k < from.len() && from[k] == j,
            decreases self.users@.len() - i,
        {
            if self.users[i].follows(feed, symbol) {
                addrs.push(self.users[i].addr.clone());
                proof {
                    let ghost prior = from;
                    from = from.push(i as int);
                    assert forall|j: int|
                        0 <= j < i + 1 && (#[trigger] self.users@[j])@.symbols(feed).contains(
                            symbol@,
                        ) implies exists|k: int| 0 <= k < from.len() && from[k] == j by {
                        if j < i {
                            let k = choose|k: int| 0 <= k < prior.len() && prior[k] == j;
                            assert(from[k] == j);
                        } else {
                            assert(from[from.len() - 1] == j);
                        }
                    }
                }
            }
            i = i + 1;
        }
        proof {
            assert forall|a: Seq<char>|
                self@.follows(a, feed, symbol@) <==> exists|k: int|
                    0 <= k < addrs@.len() && (#[trigger] addrs@[k])@ == a by {
                if self@.follows(a, feed, symbol@) {
                    let j = self.index@[a] as int;
                    assert(self.users@[j].spec_addr() == a);
                    let k = choose|k: int| 0 <= k < from.len() && from[k] == j;
                    assert(addrs@[k]@ == a);
                }
                if exists|k: int| 0 <= k < addrs@.len() && (#[trigger] addrs@[k])@ == a {
                    let k = choose|k: int| 0 <= k < addrs@.len() && (#[trigger] addrs@[k])@ == a;
                    assert(self.index@[self.users@[from[k]].spec_addr()] == from[k]);
                }
            }
            assert forall|k: int, l: int| 0 <= k < l < addrs@.len() implies addrs@[k]@
                != addrs@[l]@ by {
                assert(from[k] < from[l]);
                assert(self.index@[self.users@[from[k]].spec_addr()] == from[k]);
                assert(self.index@[self.users@[from[l]].spec_addr()] == from[l]);
            }
        }
        addrs
    }
}

} // verus!
