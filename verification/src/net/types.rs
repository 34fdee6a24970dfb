//! The messages a stream client sends.

use vstd::prelude::*;

verus! {

/// A request to start or stop receiving one kind of event for one symbol.
/// `user_id` says whose order updates are meant.
#[derive(Debug, Clone, PartialEq, Eq)]
pub struct WsClientMessage {
    pub user_id: Option<u64>,
    pub method: Method,
    pub event: Event,
    pub symbol: String,
}

#[allow(non_camel_case_types)]
#[derive(Debug, Clone, Copy, PartialEq, Eq, Hash, Structural)]
pub enum Method {
    SUBSCRIBE,
    UNSUBSCRIBE,
}

/// The kinds of event a client can ask for.
#[allow(non_camel_case_types)]
#[derive(Debug, Clone, Copy, PartialEq, Eq, Hash, Structural)]
pub enum Event {
    TRADE,
    DEPTH,
    TICKER,
    ORDERUPDATE,
}

/// The symbols that are traded.
#[allow(non_camel_case_types)]
#[derive(Debug, Clone, Copy, PartialEq, Eq, Hash, Structural)]
pub enum RegisteredSymbols {
    SOL_USDC,
    BTC_USDc,
    ETH_USDC,
}

impl RegisteredSymbols {
    /// The symbol as it is written.
    pub open spec fn name(self) -> Seq<char> {
        match self {
            RegisteredSymbols::SOL_USDC => "SOL_USDC"@,
            RegisteredSymbols::BTC_USDc => "BTC_USDc"@,
            RegisteredSymbols::ETH_USDC => "ETH_USDC"@,
        }
    }

    pub fn to_string(&self) -> (text: String)
        ensures
            text@ == self.name(),
    {
        match self {
            RegisteredSymbols::SOL_USDC => "SOL_USDC".to_owned(),
            RegisteredSymbols::BTC_USDc => "BTC_USDc".to_owned(),
            RegisteredSymbols::ETH_USDC => "ETH_USDC".to_owned(),
        }
    }

    /// Every registered symbol, in declaration order.
    pub fn all() -> (symbols: Vec<RegisteredSymbols>)
        ensures
            symbols@ == seq![
                RegisteredSymbols::SOL_USDC,
                RegisteredSymbols::BTC_USDc,
                RegisteredSymbols::ETH_USDC,
            ],
    {
        let mut symbols: Vec<RegisteredSymbols> = Vec::new();
        symbols.push(RegisteredSymbols::SOL_USDC);
        symbols.push(RegisteredSymbols::BTC_USDc);
        symbols.push(RegisteredSymbols::ETH_USDC);
        proof {
            assert(symbols@ =~= seq![
                RegisteredSymbols::SOL_USDC,
                RegisteredSymbols::BTC_USDc,
                RegisteredSymbols::ETH_USDC,
            ]);
        }
        symbols
    }

    /// No two registered symbols are written alike.
    pub proof fn lemma_names_differ(a: RegisteredSymbols, b: RegisteredSymbols)
        requires
            a != b,
        ensures
            a.name() != b.name(),
    {
        reveal_strlit("SOL_USDC");
        reveal_strlit("BTC_USDc");
        reveal_strlit("ETH_USDC");
        assert("SOL_USDC"@[0] == 'S');
        assert("BTC_USDc"@[0] == 'B');
        assert("ETH_USDC"@[0] == 'E');
    }

    /// The registered symbol that is written exactly as `asset`; the match
    /// is case-sensitive.
    pub fn from_str(asset: &str) -> (symbol: Option<RegisteredSymbols>)
        ensures
            match symbol {
                Some(s) => s.name() == asset@,
                None => forall|s: RegisteredSymbols| s.name() != asset@,
            },
    {
        let wanted = asset.to_owned();
        let symbols = RegisteredSymbols::all();
        let mut i: usize = 0;
        while i < symbols.len()
            invariant
                i <= symbols@.len(),
                wanted@ == asset@,
                symbols@ == seq![
                    RegisteredSymbols::SOL_USDC,
                    RegisteredSymbols::BTC_USDc,
                    RegisteredSymbols::ETH_USDC,
                ],
                forall|j: int| 0 <= j < i ==> symbols@[j].name() != asset@,
            decreases symbols@.len() - i,
        {
            let symbol = symbols[i];
            if symbol.to_string() == wanted {
                return Some(symbol);
            }
            i = i + 1;
        }
        proof {
            assert forall|s: RegisteredSymbols| s.name() != asset@ by {
                match s {
                    RegisteredSymbols::SOL_USDC => {
                        assert(symbols@[0] == s);
                    },
                    RegisteredSymbols::BTC_USDc => {
                        assert(symbols@[1] == s);
                    },
                    RegisteredSymbols::ETH_USDC => {
                        assert(symbols@[2] == s);
                    },
                }
            }
        }
        None
    }
}

} // verus!
