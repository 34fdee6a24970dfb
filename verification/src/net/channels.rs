//! The names of the channels on the message bus, and how to read them.
//!
//! Public events go to `market:trade:<symbol>`, `market:depth:<symbol>` and
//! `market:ticker:<symbol>`; the updates of one user go to
//! `market:order:user:<user id>`, the id in decimal.

use vstd::prelude::*;
use vstd::string::StringExecFns;
use crate::market_data::types::{Event, EventView, UserOrderUpdateEvent};

verus! {

/// The decimal digit for `d`.
pub open spec fn digit(d: nat) -> char {
    if d == 0 {
        '0'
    } else if d == 1 {
        '1'
    } else if d == 2 {
        '2'
    } else if d == 3 {
        '3'
    } else if d == 4 {
        '4'
    } else if d == 5 {
        '5'
    } else if d == 6 {
        '6'
    } else if d == 7 {
        '7'
    } else if d == 8 {
        '8'
    } else {
        '9'
    }
}

/// The value of a decimal digit; none for any other character.
pub open spec fn digit_value(c: char) -> Option<nat> {
    if c == '0' {
        Some(0)
    } else if c == '1' {
        Some(1)
    } else if c == '2' {
        Some(2)
    } else if c == '3' {
        Some(3)
    } else if c == '4' {
        Some(4)
    } else if c == '5' {
        Some(5)
    } else if c == '6' {
        Some(6)
    } else if c == '7' {
        Some(7)
    } else if c == '8' {
        Some(8)
    } else if c == '9' {
        Some(9)
    } else {
        None
    }
}

/// `n` in decimal, without leading zeros.
pub open spec fn decimal(n: nat) -> Seq<char>
    decreases n,
{
    if n < 10 {
        seq![digit(n)]
    } else {
        decimal(n / 10).push(digit(n % 10))
    }
}

/// Every character of `text` is a decimal digit.
pub open spec fn is_digits(text: Seq<char>) -> bool {
    forall|i: int| 0 <= i < text.len() ==> digit_value(#[trigger] text[i]) is Some
}

/// The number that the digits of `text` write in decimal.
pub open spec fn value_of(text: Seq<char>) -> nat
    decreases text.len(),
{
    if text.len() == 0 {
        0
    } else {
        value_of(text.drop_last()) * 10 + digit_value(text.last())->0
    }
}

/// The unsigned 64-bit number that `text` writes: decimal digits, at least
/// one, after an optional plus sign. Text that is anything else, or that
/// writes a greater number, writes none.
pub open spec fn parsed(text: Seq<char>) -> Option<u64> {
    let digits = if text.len() > 0 && text[0] == '+' {
        text.drop_first()
    } else {
        text
    };
    if digits.len() > 0 && is_digits(digits) && value_of(digits) <= u64::MAX {
        Some(value_of(digits) as u64)
    } else {
        None
    }
}

/// Where the last colon of `text` is; -1 where it has none.
pub open spec fn last_colon(text: Seq<char>) -> int
    decreases text.len(),
{
    if text.len() == 0 {
        -1
    } else if text.last() == ':' {
        text.len() - 1
    } else {
        last_colon(text.drop_last())
    }
}

/// What follows the last colon of `text`; all of it where it has none.
pub open spec fn last_segment(text: Seq<char>) -> Seq<char> {
    text.subrange(last_colon(text) + 1, text.len() as int)
}

pub open spec fn trade_topic(symbol: Seq<char>) -> Seq<char> {
    "market:trade:"@ + symbol
}

pub open spec fn depth_topic(symbol: Seq<char>) -> Seq<char> {
    "market:depth:"@ + symbol
}

pub open spec fn ticker_topic(symbol: Seq<char>) -> Seq<char> {
    "market:ticker:"@ + symbol
}

pub open spec fn order_topic(user_id: u64) -> Seq<char> {
    "market:order:user:"@ + decimal(user_id as nat)
}

/// The channel that `event` goes to: the topic of its kind and symbol for
/// a public event, the topic of its user for a private one.
pub open spec fn channel_of(event: EventView) -> Seq<char> {
    match event {
        EventView::Trade(e) => trade_topic(e.symbol),
        EventView::Depth(e) => depth_topic(e.symbol),
        EventView::Ticker(e) => ticker_topic(e.symbol),
        EventView::OrderUpdate(e) => order_topic(e.user_id()),
    }
}

/// A colon that no colon follows is the last.
pub proof fn lemma_last_colon(text: Seq<char>, at: int)
    requires
        -1 <= at < text.len(),
        at >= 0 ==> text[at] == ':',
        forall|j: int| at < j < text.len() ==> text[j] != ':',
    ensures
        last_colon(text) == at,
    decreases text.len(),
{
    if text.len() > 0 && at < text.len() - 1 {
        lemma_last_colon(text.drop_last(), at);
    }
}

/// A number in decimal is a non-empty run of digits that writes the
/// number.
pub proof fn lemma_decimal(n: nat)
    ensures
        decimal(n).len() > 0,
        is_digits(decimal(n)),
        value_of(decimal(n)) == n,
        forall|i: int| 0 <= i < decimal(n).len() ==> decimal(n)[i] != ':' && decimal(n)[i] != '+',
    decreases n,
{
    let text = decimal(n);
    if n < 10 {
        assert(text.drop_last() =~= Seq::<char>::empty());
        assert(value_of(text.drop_last()) == 0);
        assert(text.last() == digit(n));
    } else {
        lemma_decimal(n / 10);
        let head = decimal(n / 10);
        assert(text.drop_last() =~= head);
        assert(text.last() == digit(n % 10));
        assert forall|i: int| 0 <= i < text.len() implies digit_value(#[trigger] text[i])
            is Some by {
            if i < head.len() {
                assert(text[i] == head[i]);
            }
        }
        assert forall|i: int| 0 <= i < text.len() implies text[i] != ':' && text[i] != '+' by {
            if i < head.len() {
                assert(text[i] == head[i]);
            }
        }
    }
}

/// What was written in decimal is read back as it was.
pub proof fn lemma_decimal_round_trip(n: u64)
    ensures
        parsed(decimal(n as nat)) == Some(n),
{
    lemma_decimal(n as nat);
    assert(decimal(n as nat)[0] != '+');
}

/// The last segment of a topic for a symbol is the symbol, provided the
/// symbol holds no colon.
pub proof fn lemma_topic_round_trip(symbol: Seq<char>)
    requires
        forall|i: int| 0 <= i < symbol.len() ==> symbol[i] != ':',
    ensures
        last_segment(trade_topic(symbol)) == symbol,
        last_segment(depth_topic(symbol)) == symbol,
        last_segment(ticker_topic(symbol)) == symbol,
{
    reveal_strlit("market:trade:");
    reveal_strlit("market:depth:");
    reveal_strlit("market:ticker:");
    lemma_last_segment_after("market:trade:"@, symbol);
    lemma_last_segment_after("market:depth:"@, symbol);
    lemma_last_segment_after("market:ticker:"@, symbol);
}

/// The user of the topic for a user's order updates is that user.
pub proof fn lemma_order_topic_round_trip(user_id: u64)
    ensures
        parsed(last_segment(order_topic(user_id))) == Some(user_id),
{
    reveal_strlit("market:order:user:");
    lemma_decimal(user_id as nat);
    lemma_last_segment_after("market:order:user:"@, decimal(user_id as nat));
    lemma_decimal_round_trip(user_id);
}

/// What follows a prefix that ends in a colon is the last segment, where
/// no colon is in it.
pub proof fn lemma_last_segment_after(prefix: Seq<char>, rest: Seq<char>)
    requires
        prefix.len() > 0,
        prefix.last() == ':',
        forall|i: int| 0 <= i < rest.len() ==> rest[i] != ':',
    ensures
        last_segment(prefix + rest) == rest,
{
    let text = prefix + rest;
    let at = prefix.len() - 1;
    assert(text[at] == prefix[at]);
    assert forall|j: int| at < j < text.len() implies text[j] != ':' by {
        assert(text[j] == rest[j - prefix.len()]);
    }
    lemma_last_colon(text, at);
    assert(text.subrange(at + 1, text.len() as int) =~= rest);
}

fn digit_text(d: u64) -> (text: &'static str)
    requires
        d < 10,
    ensures
        text@ == seq![digit(d as nat)],
{
    proof {
        reveal_strlit("0");
        reveal_strlit("1");
        reveal_strlit("2");
        reveal_strlit("3");
        reveal_strlit("4");
        reveal_strlit("5");
        reveal_strlit("6");
        reveal_strlit("7");
        reveal_strlit("8");
        reveal_strlit("9");
    }
    let text = if d == 0 {
        "0"
    } else if d == 1 {
        "1"
    } else if d == 2 {
        "2"
    } else if d == 3 {
        "3"
    } else if d == 4 {
        "4"
    } else if d == 5 {
        "5"
    } else if d == 6 {
        "6"
    } else if d == 7 {
        "7"
    } else if d == 8 {
        "8"
    } else {
        "9"
    };
    proof {
        assert(text@ =~= seq![digit(d as nat)]);
    }
    text
}

/// `n` in decimal.
pub fn to_decimal(n: u64) -> (text: String)
    ensures
        text@ == decimal(n as nat),
    decreases n,
{
    if n < 10 {
        String::from_str(digit_text(n))
    } else {
        let head = to_decimal(n / 10);
        let text = head.concat(digit_text(n % 10));
        proof {
            assert(text@ =~= decimal((n / 10) as nat).push(digit((n % 10) as nat)));
        }
        text
    }
}

fn digit_of(c: char) -> (d: Option<u64>)
    ensures
        match d {
            Some(v) => digit_value(c) == Some(v as nat) && v < 10,
            None => digit_value(c) is None,
        },
{
    if c == '0' {
        Some(0)
    } else if c == '1' {
        Some(1)
    } else if c == '2' {
        Some(2)
    } else if c == '3' {
        Some(3)
    } else if c == '4' {
        Some(4)
    } else if c == '5' {
        Some(5)
    } else if c == '6' {
        Some(6)
    } else if c == '7' {
        Some(7)
    } else if c == '8' {
        Some(8)
    } else if c == '9' {
        Some(9)
    } else {
        None
    }
}

/// A run of digits writes no less than any run it begins with.
proof fn lemma_value_grows(text: Seq<char>, k: int)
    requires
        0 <= k <= text.len(),
    ensures
        value_of(text.take(k)) <= value_of(text),
    decreases text.len() - k,
{
    if k < text.len() {
        lemma_value_grows(text, k + 1);
        assert(text.take(k + 1).drop_last() =~= text.take(k));
    } else {
        assert(text.take(k) =~= text);
    }
}

/// Reads an unsigned 64-bit number written in decimal.
pub fn parse_u64(text: &str) -> (number: Option<u64>)
    ensures
        number == parsed(text@),
{
    let n: usize = text.unicode_len();
    let start: usize = if n > 0 && text.get_char(0) == '+' {
        1
    } else {
        0
    };
    let ghost digits = text@.subrange(start as int, n as int);
    proof {
        if start == 1 {
            assert(digits =~= text@.drop_first());
        } else {
            assert(digits =~= text@);
        }
    }
    if start == n {
        return None;
    }
    let mut value: u64 = 0;
    let mut i: usize = start;
    while i < n
        invariant
            start <= i <= n,
            n == text@.len(),
            digits == text@.subrange(start as int, n as int),
            digits.len() == n - start,
            parsed(text@) == if digits.len() > 0 && is_digits(digits) && value_of(digits)
                <= u64::MAX {
                Some(value_of(digits) as u64)
            } else {
                None
            },
            is_digits(digits.take(i - start)),
            value == value_of(digits.take(i - start)),
        decreases n - i,
    {
        let c = text.get_char(i);
        let d = match digit_of(c) {
            Some(d) => d,
            None => {
                proof {
                    assert(digits[i - start] == c);
                    assert(digit_value(digits[i - start]) is None);
                }
                return None;
            },
        };
        proof {
            assert(digits[i - start] == c);
            assert(digits.take(i - start + 1).drop_last() =~= digits.take(i - start));
            assert(digits.take(i - start + 1).last() == c);
            lemma_value_grows(digits, i - start + 1);
            assert(value_of(digits.take(i - start + 1)) == value * 10 + d);
        }
        if value > (u64::MAX - d) / 10 {
            return None;
        }
        value = value * 10 + d;
        proof {
            assert forall|j: int| 0 <= j < digits.take(i - start + 1).len() implies digit_value(
                #[trigger] digits.take(i - start + 1)[j],
            ) is Some by {
                if j < i - start {
                    assert(digits.take(i - start)[j] == digits.take(i - start + 1)[j]);
                }
            }
        }
        i = i + 1;
    }
    proof {
        assert(digits.take(n - start) =~= digits);
    }
    Some(value)
}

/// What follows the last colon of `channel`; all of it where it has none.
pub fn channel_suffix(channel: &str) -> (suffix: String)
    ensures
        suffix@ == last_segment(channel@),
{
    let n: usize = channel.unicode_len();
    let mut i: usize = n;
    while i > 0 && channel.get_char(i - 1) != ':'
        invariant
            i <= n,
            n == channel@.len(),
            forall|j: int| i <= j < n ==> channel@[j] != ':',
        decreases i,
    {
        i = i - 1;
    }
    proof {
        lemma_last_colon(channel@, i - 1);
    }
    String::from_str(channel.substring_char(i, n))
}

/// The user whose updates go to `channel`, read from its last segment.
pub fn channel_user(channel: &str) -> (user: Option<u64>)
    ensures
        user == parsed(last_segment(channel@)),
{
    let suffix = channel_suffix(channel);
    parse_u64(suffix.as_str())
}

/// The channel of the trades of `symbol`.
pub fn trade_channel(symbol: &str) -> (channel: String)
    ensures
        channel@ == trade_topic(symbol@),
{
    String::from_str("market:trade:").concat(symbol)
}

/// The channel of the depth of `symbol`.
pub fn depth_channel(symbol: &str) -> (channel: String)
    ensures
        channel@ == depth_topic(symbol@),
{
    String::from_str("market:depth:").concat(symbol)
}

/// The channel of the ticker of `symbol`.
pub fn ticker_channel(symbol: &str) -> (channel: String)
    ensures
        channel@ == ticker_topic(symbol@),
{
    String::from_str("market:ticker:").concat(symbol)
}

/// The channel of the order updates of `user_id`.
pub fn order_channel(user_id: u64) -> (channel: String)
    ensures
        channel@ == order_topic(user_id),
{
    let id = to_decimal(user_id);
    String::from_str("market:order:user:").concat(id.as_str())
}

/// The channel that `event` is published on.
pub fn channel_for(event: &Event) -> (channel: String)
    ensures
        channel@ == channel_of(event@),
{
    match event {
        Event::Trade(e) => trade_channel(e.symbol.as_str()),
        Event::Depth(e) => depth_channel(e.symbol.as_str()),
        Event::Ticker(e) => ticker_channel(e.symbol.as_str()),
        Event::OrderUpdate(update) => match update {
            UserOrderUpdateEvent::Ack { user_id, .. } => order_channel(*user_id),
            UserOrderUpdateEvent::Fill { user_id, .. } => order_channel(*user_id),
            UserOrderUpdateEvent::Reject { user_id, .. } => order_channel(*user_id),
            UserOrderUpdateEvent::Cancelled { user_id, .. } => order_channel(*user_id),
        },
    }
}

} // verus!
