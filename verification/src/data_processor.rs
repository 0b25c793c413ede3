use vstd::prelude::*;

use crate::decimal::{decimal_from_str, decimal_in_range, parse_rate};
use crate::matching::{find_rate, find_symbol, rate_match, symbol_match};
use crate::rate_table::RateTable;
use crate::types::{
    ExchangeRate, Feed, FeedDataTx, FeedDataTxLog, FeedDataTxLogEvent,
    FeedDataTxLogEventAttribute, OutputData, StreamError,
};

verus! {

// ---------------------------------------------------------------------------
// Where the exchange rates stand in a block
// ---------------------------------------------------------------------------

/// The type of the events that carry a validator's vote on exchange rates.
pub open spec fn aggregate_vote_type() -> Seq<char> {
    "aggregate_vote"@
}

/// The key of the attribute that lists the voted exchange rates.
pub open spec fn exchange_rates_key() -> Seq<char> {
    "exchange_rates"@
}

/// The value of an attribute if it is an exchange-rate list.
pub open spec fn attribute_rate_values(a: FeedDataTxLogEventAttribute) -> Seq<Seq<char>> {
    if a.key@ == exchange_rates_key() {
        seq![a.value@]
    } else {
        seq![]
    }
}

/// The exchange-rate lists of an event: those of its attributes, in order,
/// when it is a vote, and none otherwise.
pub open spec fn event_rate_values(e: FeedDataTxLogEvent) -> Seq<Seq<char>> {
    if e.event_type@ == aggregate_vote_type() {
        e.attributes@.flat_map(|a: FeedDataTxLogEventAttribute| attribute_rate_values(a))
    } else {
        seq![]
    }
}

/// The exchange-rate lists of the events of a log, in order.
pub open spec fn log_rate_values(l: FeedDataTxLog) -> Seq<Seq<char>> {
    l.events@.flat_map(|e: FeedDataTxLogEvent| event_rate_values(e))
}

/// The exchange-rate lists of the logs of a transaction, in order.
pub open spec fn tx_rate_values(t: FeedDataTx) -> Seq<Seq<char>> {
    t.logs@.flat_map(|l: FeedDataTxLog| log_rate_values(l))
}

/// Every exchange-rate list of a block: all events of all logs of all
/// transactions, in order.
pub open spec fn feed_rate_values(feed: Feed) -> Seq<Seq<char>> {
    feed.data.txs@.flat_map(|t: FeedDataTx| tx_rate_values(t))
}

/// The first exchange-rate list of a block, the only one that is read.
pub open spec fn first_rate_value(feed: Feed) -> Option<Seq<char>> {
    if feed_rate_values(feed).len() > 0 {
        Some(feed_rate_values(feed)[0])
    } else {
        None
    }
}

/// `found` is the first of `values`, or `None` when there is none.
pub open spec fn is_first_of(values: Seq<Seq<char>>, found: Option<String>) -> bool {
    match found {
        Some(v) => values.len() > 0 && v@ == values[0],
        None => values.len() == 0,
    }
}

// ---------------------------------------------------------------------------
// Reading an exchange-rate list
// ---------------------------------------------------------------------------

/// The pieces of `s` between commas, as `str::split(",")` yields them: empty
/// pieces included, and one empty piece for an empty text.
pub open spec fn split_commas(s: Seq<char>) -> Seq<Seq<char>>
    decreases s.len(),
{
    if s.len() == 0 {
        seq![Seq::<char>::empty()]
    } else {
        let init = split_commas(s.drop_last());
        if s.last() == ',' {
            init.push(Seq::<char>::empty())
        } else {
            init.update(init.len() - 1, init.last().push(s.last()))
        }
    }
}

/// The asset name and rate of one entry of a list, such as `38.24uusd`: the
/// first run of lower-case letters, and the first number, read as a decimal.
pub open spec fn entry_rate(entry: Seq<char>) -> Result<(Seq<char>, ExchangeRate), StreamError> {
    match symbol_match(entry) {
        None => Err(StreamError::SymbolNotFound),
        Some(symbol) => match rate_match(entry) {
            None => Err(StreamError::RateNotFound),
            Some(text) => match decimal_from_str(text) {
                None => Err(StreamError::InvalidRate),
                Some((mantissa, scale)) => Ok(
                    (symbol, ExchangeRate { mantissa: mantissa, scale: scale }),
                ),
            },
        },
    }
}

/// The rates of a list of entries, read from first to last: a later entry
/// of the same asset replaces an earlier one, and the first entry that cannot
/// be read makes the error.
pub open spec fn rates_of_entries(entries: Seq<Seq<char>>) -> Result<Map<Seq<char>, ExchangeRate>, StreamError>
    decreases entries.len(),
{
    if entries.len() == 0 {
        Ok(Map::empty())
    } else {
        match rates_of_entries(entries.drop_last()) {
            Err(e) => Err(e),
            Ok(m) => match entry_rate(entries.last()) {
                Err(e) => Err(e),
                Ok((symbol, rate)) => Ok(m.insert(symbol, rate)),
            },
        }
    }
}

/// The exchange rates of a block: those of its first exchange-rate list, and
/// none when it has no such list.
pub open spec fn block_rates(feed: Feed) -> Result<Map<Seq<char>, ExchangeRate>, StreamError> {
    match first_rate_value(feed) {
        None => Ok(Map::empty()),
        Some(list) => rates_of_entries(split_commas(list)),
    }
}

/// The texts of a sequence of strings.
pub open spec fn texts(v: Seq<String>) -> Seq<Seq<char>> {
    v.map_values(|s: String| s@)
}

// ---------------------------------------------------------------------------
// Lemmas
// ---------------------------------------------------------------------------

proof fn lemma_flat_map_take_prefix<A>(xs: Seq<A>, f: spec_fn(A) -> Seq<Seq<char>>, i: int, j: int)
    requires
        0 <= i <= j <= xs.len(),
    ensures
        xs.take(i).flat_map(f).len() <= xs.take(j).flat_map(f).len(),
        forall|k: int|
            0 <= k < xs.take(i).flat_map(f).len() ==> xs.take(j).flat_map(f)[k]
                == xs.take(i).flat_map(f)[k],
    decreases j - i,
{
    if i < j {
        lemma_flat_map_take_prefix(xs, f, i, j - 1);
        xs.lemma_flat_map_take_append(f, j - 1);
    }
}

proof fn lemma_first_found<A>(xs: Seq<A>, f: spec_fn(A) -> Seq<Seq<char>>, i: int)
    requires
        0 <= i < xs.len(),
        xs.take(i).flat_map(f).len() == 0,
        f(xs[i]).len() > 0,
    ensures
        xs.flat_map(f).len() > 0,
        xs.flat_map(f)[0] == f(xs[i])[0],
{
    xs.lemma_flat_map_take_append(f, i);
    lemma_flat_map_take_prefix(xs, f, i + 1, xs.len() as int);
    assert(xs.take(xs.len() as int) =~= xs);
}

proof fn lemma_none_found_step<A>(xs: Seq<A>, f: spec_fn(A) -> Seq<Seq<char>>, i: int)
    requires
        0 <= i < xs.len(),
        xs.take(i).flat_map(f).len() == 0,
        f(xs[i]).len() == 0,
    ensures
        xs.take(i + 1).flat_map(f).len() == 0,
{
    xs.lemma_flat_map_take_append(f, i);
}

proof fn lemma_none_found_end<A>(xs: Seq<A>, f: spec_fn(A) -> Seq<Seq<char>>)
    requires
        xs.take(xs.len() as int).flat_map(f).len() == 0,
    ensures
        xs.flat_map(f).len() == 0,
{
    assert(xs.take(xs.len() as int) =~= xs);
}

proof fn lemma_take_zero_flat_map<A>(xs: Seq<A>, f: spec_fn(A) -> Seq<Seq<char>>)
    ensures
        xs.take(0).flat_map(f).len() == 0,
{
    assert(xs.take(0) =~= Seq::<A>::empty());
    reveal_with_fuel(Seq::flatten, 1);
    assert(xs.take(0).map_values(f) =~= Seq::<Seq<Seq<char>>>::empty());
}

proof fn lemma_split_commas_nonempty(s: Seq<char>)
    ensures
        split_commas(s).len() >= 1,
    decreases s.len(),
{
    if s.len() > 0 {
        lemma_split_commas_nonempty(s.drop_last());
    }
}

// ---------------------------------------------------------------------------
// Executable functions
// ---------------------------------------------------------------------------

/// The first exchange-rate list among the attributes of a vote.
fn first_rate_value_in_attributes(attributes: &Vec<FeedDataTxLogEventAttribute>) -> (found: Option<String>)
    ensures
        is_first_of(attributes@.flat_map(|a: FeedDataTxLogEventAttribute| attribute_rate_values(a)), found),
{
    let ghost f = |a: FeedDataTxLogEventAttribute| attribute_rate_values(a);
    let key = "exchange_rates".to_owned();
    proof {
        lemma_take_zero_flat_map(attributes@, f);
    }
    let len = attributes.len();
    let mut i: usize = 0;
    while i < len
        invariant
            len == attributes@.len(),
            i <= len,
            key@ == exchange_rates_key(),
            f == (|a: FeedDataTxLogEventAttribute| attribute_rate_values(a)),
            attributes@.take(i as int).flat_map(f).len() == 0,
        decreases len - i,
    {
        if attributes[i].key == key {
            proof {
                lemma_first_found(attributes@, f, i as int);
            }
            return Some(attributes[i].value.clone());
        }
        proof {
            lemma_none_found_step(attributes@, f, i as int);
        }
        i = i + 1;
    }
    proof {
        lemma_none_found_end(attributes@, f);
    }
    None
}

/// The first exchange-rate list of an event.
fn first_rate_value_in_event(event: &FeedDataTxLogEvent) -> (found: Option<String>)
    ensures
        is_first_of(event_rate_values(*event), found),
{
    let vote = "aggregate_vote".to_owned();
    if event.event_type == vote {
        first_rate_value_in_attributes(&event.attributes)
    } else {
        None
    }
}

/// The first exchange-rate list of a log.
fn first_rate_value_in_log(log: &FeedDataTxLog) -> (found: Option<String>)
    ensures
        is_first_of(log_rate_values(*log), found),
{
    let ghost f = |e: FeedDataTxLogEvent| event_rate_values(e);
    proof {
        lemma_take_zero_flat_map(log.events@, f);
    }
    let len = log.events.len();
    let mut i: usize = 0;
    while i < len
        invariant
            len == log.events@.len(),
            i <= len,
            f == (|e: FeedDataTxLogEvent| event_rate_values(e)),
            log.events@.take(i as int).flat_map(f).len() == 0,
        decreases len - i,
    {
        let found = first_rate_value_in_event(&log.events[i]);
        if found.is_some() {
            proof {
                lemma_first_found(log.events@, f, i as int);
            }
            return found;
        }
        proof {
            lemma_none_found_step(log.events@, f, i as int);
        }
        i = i + 1;
    }
    proof {
        lemma_none_found_end(log.events@, f);
    }
    None
}

/// The first exchange-rate list of a transaction.
fn first_rate_value_in_tx(tx: &FeedDataTx) -> (found: Option<String>)
    ensures
        is_first_of(tx_rate_values(*tx), found),
{
    let ghost f = |l: FeedDataTxLog| log_rate_values(l);
    proof {
        lemma_take_zero_flat_map(tx.logs@, f);
    }
    let len = tx.logs.len();
    let mut i: usize = 0;
    while i < len
        invariant
            len == tx.logs@.len(),
            i <= len,
            f == (|l: FeedDataTxLog| log_rate_values(l)),
            tx.logs@.take(i as int).flat_map(f).len() == 0,
        decreases len - i,
    {
        let found = first_rate_value_in_log(&tx.logs[i]);
        if found.is_some() {
            proof {
                lemma_first_found(tx.logs@, f, i as int);
            }
            return found;
        }
        proof {
            lemma_none_found_step(tx.logs@, f, i as int);
        }
        i = i + 1;
    }
    proof {
        lemma_none_found_end(tx.logs@, f);
    }
    None
}

/// The first exchange-rate list of a block: the value of the first
/// `exchange_rates` attribute of the first `aggregate_vote` event that has
/// one, going through all events of all logs of all transactions in order.
pub fn first_exchange_rates(feed: &Feed) -> (found: Option<String>)
    ensures
        match found {
            Some(v) => first_rate_value(*feed) == Some(v@),
            None => first_rate_value(*feed) is None,
        },
{
    let ghost f = |t: FeedDataTx| tx_rate_values(t);
    proof {
        lemma_take_zero_flat_map(feed.data.txs@, f);
    }
    let len = feed.data.txs.len();
    let mut i: usize = 0;
    while i < len
        invariant
            len == feed.data.txs@.len(),
            i <= len,
            f == (|t: FeedDataTx| tx_rate_values(t)),
            feed.data.txs@.take(i as int).flat_map(f).len() == 0,
        decreases len - i,
    {
        let found = first_rate_value_in_tx(&feed.data.txs[i]);
        if found.is_some() {
            proof {
                assert(f(feed.data.txs@[i as int]) == tx_rate_values(feed.data.txs@[i as int]));
                lemma_first_found(feed.data.txs@, f, i as int);
            }
            return found;
        }
        proof {
            lemma_none_found_step(feed.data.txs@, f, i as int);
        }
        i = i + 1;
    }
    proof {
        lemma_none_found_end(feed.data.txs@, f);
    }
    None
}

/// Splits a text at every comma, as `str::split(",")` does.
pub fn split_commas_exec(text: &str) -> (pieces: Vec<String>)
    ensures
        texts(pieces@) == split_commas(text@),
{
    let n = text.unicode_len();
    let mut pieces: Vec<String> = Vec::new();
    let mut start: usize = 0;
    let mut i: usize = 0;
    proof {
        assert(text@.take(0) =~= Seq::<char>::empty());
        assert(text@.subrange(0, 0) =~= Seq::<char>::empty());
        assert(texts(pieces@) =~= Seq::<Seq<char>>::empty());
    }
    while i < n
        invariant
            n == text@.len(),
            start <= i <= n,
            split_commas(text@.take(i as int)) == texts(pieces@).push(text@.subrange(start as int, i as int)),
        decreases n - i,
    {
        let c = text.get_char(i);
        let ghost before = texts(pieces@);
        proof {
            assert(text@.take(i + 1).drop_last() =~= text@.take(i as int));
            assert(text@.take(i + 1).last() == c);
        }
        if c == ',' {
            let piece = text.substring_char(start, i).to_owned();
            pieces.push(piece);
            start = i + 1;
            proof {
                assert(texts(pieces@) =~= before.push(piece@));
                assert(text@.subrange(start as int, i + 1) =~= Seq::<char>::empty());
            }
        } else {
            proof {
                assert(text@.subrange(start as int, i + 1) =~= text@.subrange(start as int, i as int).push(c));
            }
        }
        i = i + 1;
    }
    let ghost before = texts(pieces@);
    let last = text.substring_char(start, n).to_owned();
    pieces.push(last);
    proof {
        assert(text@.take(n as int) =~= text@);
        assert(texts(pieces@) =~= before.push(last@));
    }
    pieces
}

/// The asset name and the text of the rate of one entry of an exchange-rate
/// list.
pub fn locate_entry(entry: &str) -> (located: Result<(String, String), StreamError>)
    ensures
        match located {
            Ok((symbol, text)) => symbol_match(entry@) == Some(symbol@) && rate_match(entry@) == Some(text@),
            Err(StreamError::SymbolNotFound) => symbol_match(entry@) is None,
            Err(StreamError::RateNotFound) => symbol_match(entry@) is Some && rate_match(entry@) is None,
            Err(StreamError::InvalidRate) => false,
        },
{
    let symbol = match find_symbol(entry) {
        Some(s) => s,
        None => {
            return Err(StreamError::SymbolNotFound);
        },
    };
    let text = match find_rate(entry) {
        Some(t) => t,
        None => {
            return Err(StreamError::RateNotFound);
        },
    };
    Ok((symbol, text))
}

/// The asset name and rate of one entry of an exchange-rate list.
pub fn read_entry(entry: &str) -> (read: Result<(String, ExchangeRate), StreamError>)
    ensures
        match (read, entry_rate(entry@)) {
            (Ok((symbol, rate)), Ok((s, r))) => symbol@ == s && rate == r && decimal_in_range(rate),
            (Err(e), Err(e2)) => e == e2,
            _ => false,
        },
        read matches Ok((symbol, rate)) ==> symbol_match(entry@) == Some(symbol@)
            && rate_match(entry@) is Some
            && decimal_from_str(rate_match(entry@)->Some_0) == Some((rate.mantissa, rate.scale)),
{
    let (symbol, text) = locate_entry(entry)?;
    let rate = parse_rate(text.as_str());
    entry_with_rate(symbol, rate)
}

/// An entry whose asset name is found, once its rate text has been read as a
/// decimal: the pair, or `InvalidRate` when the text was no decimal.
pub fn entry_with_rate(symbol: String, rate: Option<ExchangeRate>) -> (entry: Result<(String, ExchangeRate), StreamError>)
    ensures
        match rate {
            Some(r) => entry matches Ok((s, r2)) && s@ == symbol@ && r2 == r,
            None => entry == Err::<(String, ExchangeRate), StreamError>(StreamError::InvalidRate),
        },
{
    match rate {
        Some(r) => Ok((symbol, r)),
        None => Err(StreamError::InvalidRate),
    }
}

/// The rates of the entries of an exchange-rate list, read in order into a
/// table.
pub fn read_entries(entries: &Vec<String>) -> (read: Result<RateTable, StreamError>)
    ensures
        match (read, rates_of_entries(texts(entries@))) {
            (Ok(table), Ok(m)) => table@ == m,
            (Err(e), Err(e2)) => e == e2,
            _ => false,
        },
        read matches Ok(table) ==> forall|k: Seq<char>| #[trigger] table@.dom().contains(k)
            ==> decimal_in_range(table@[k]),
{
    let mut table = RateTable::new();
    let len = entries.len();
    let mut i: usize = 0;
    while i < len
        invariant
            len == entries@.len(),
            i <= len,
            rates_of_entries(texts(entries@).take(i as int)) == Ok::<Map<Seq<char>, ExchangeRate>, StreamError>(table@),
            forall|k: Seq<char>| #[trigger] table@.dom().contains(k) ==> decimal_in_range(table@[k]),
        decreases len - i,
    {
        proof {
            assert(texts(entries@).take(i + 1).drop_last() =~= texts(entries@).take(i as int));
            assert(texts(entries@).take(i + 1).last() == entries@[i as int]@);
        }
        let (symbol, rate) = match read_entry(entries[i].as_str()) {
            Ok(pair) => pair,
            Err(e) => {
                proof {
                    lemma_rates_error_persists(texts(entries@), i as int + 1, e);
                }
                return Err(e);
            },
        };
        table.insert(symbol, rate);
        i = i + 1;
    }
    proof {
        assert(texts(entries@).take(len as int) =~= texts(entries@));
    }
    Ok(table)
}

/// Once an error is met, reading more entries keeps it.
proof fn lemma_rates_error_persists(entries: Seq<Seq<char>>, i: int, e: StreamError)
    requires
        0 <= i <= entries.len(),
        rates_of_entries(entries.take(i)) == Err::<Map<Seq<char>, ExchangeRate>, StreamError>(e),
    ensures
        rates_of_entries(entries) == Err::<Map<Seq<char>, ExchangeRate>, StreamError>(e),
    decreases entries.len() - i,
{
    if i < entries.len() {
        assert(entries.take(i + 1).drop_last() =~= entries.take(i));
        lemma_rates_error_persists(entries, i + 1, e);
    } else {
        assert(entries.take(i) =~= entries);
    }
}

/// The exchange rates of a block: the entries of its first exchange-rate
/// list, each read as an asset name and a decimal rate. A block without such
/// a list has no rates.
pub fn deserialize_stream(feed: &Feed) -> (result: Result<OutputData, StreamError>)
    ensures
        match (result, block_rates(*feed)) {
            (Ok(out), Ok(m)) => out.luna_exch_rates@ == m,
            (Err(e), Err(e2)) => e == e2,
            _ => false,
        },
        result matches Ok(out) ==> forall|k: Seq<char>| #[trigger] out.luna_exch_rates@.dom().contains(k)
            ==> decimal_in_range(out.luna_exch_rates@[k]),
{
    match first_exchange_rates(feed) {
        None => Ok(OutputData { luna_exch_rates: RateTable::new() }),
        Some(list) => {
            let entries = split_commas_exec(list.as_str());
            let table = read_entries(&entries)?;
            Ok(OutputData { luna_exch_rates: table })
        },
    }
}

// ---------------------------------------------------------------------------
// Laws
// ---------------------------------------------------------------------------

/// Only the first exchange-rate list of a block is read: once a block has
/// one, transactions added after it change nothing.
pub proof fn law_later_transactions_ignored(feed: Feed, extended: Feed)
    requires
        feed_rate_values(feed).len() > 0,
        feed.data.txs@.len() <= extended.data.txs@.len(),
        extended.data.txs@.take(feed.data.txs@.len() as int) == feed.data.txs@,
    ensures
        first_rate_value(extended) == first_rate_value(feed),
        block_rates(extended) == block_rates(feed),
{
    let f = |t: FeedDataTx| tx_rate_values(t);
    let xs = extended.data.txs@;
    lemma_flat_map_take_prefix(xs, f, feed.data.txs@.len() as int, xs.len() as int);
    assert(xs.take(xs.len() as int) =~= xs);
}

/// A block without an exchange-rate list has no rates, and is no error.
pub proof fn law_no_list_no_rates(feed: Feed)
    requires
        feed_rate_values(feed).len() == 0,
    ensures
        block_rates(feed) == Ok::<Map<Seq<char>, ExchangeRate>, StreamError>(Map::empty()),
{
}

/// When every entry of a list can be read, the rates hold exactly the asset
/// names of the entries, and each name has the rate of its last entry.
pub proof fn law_readable_entries(entries: Seq<Seq<char>>)
    requires
        forall|i: int| 0 <= i < entries.len() ==> (#[trigger] entry_rate(entries[i])) is Ok,
    ensures
        rates_of_entries(entries) is Ok,
        forall|k: Seq<char>| #[trigger] rates_of_entries(entries)->Ok_0.dom().contains(k)
            <==> exists|i: int| 0 <= i < entries.len() && (#[trigger] entry_rate(entries[i]))->Ok_0.0 == k,
        forall|i: int|
            0 <= i < entries.len() && (forall|j: int| i < j < entries.len()
                ==> (#[trigger] entry_rate(entries[j]))->Ok_0.0 != entry_rate(entries[i])->Ok_0.0)
            ==> rates_of_entries(entries)->Ok_0[(#[trigger] entry_rate(entries[i]))->Ok_0.0]
                == entry_rate(entries[i])->Ok_0.1,
    decreases entries.len(),
{
    if entries.len() > 0 {
        let init = entries.drop_last();
        assert forall|i: int| 0 <= i < init.len() implies (#[trigger] entry_rate(init[i])) is Ok by {
            assert(init[i] == entries[i]);
        }
        law_readable_entries(init);
        let last = entries.len() - 1;
        assert(entry_rate(entries[last]) is Ok);
        let m = rates_of_entries(init)->Ok_0;
        let (k0, r0) = entry_rate(entries[last])->Ok_0;
        assert(rates_of_entries(entries) == Ok::<Map<Seq<char>, ExchangeRate>, StreamError>(m.insert(k0, r0)));
        assert forall|k: Seq<char>| #[trigger] rates_of_entries(entries)->Ok_0.dom().contains(k)
            <==> exists|i: int| 0 <= i < entries.len() && (#[trigger] entry_rate(entries[i]))->Ok_0.0 == k by {
            if m.insert(k0, r0).dom().contains(k) && k != k0 {
                let i = choose|i: int| 0 <= i < init.len() && (#[trigger] entry_rate(init[i]))->Ok_0.0 == k;
                assert(init[i] == entries[i]);
            }
            if exists|i: int| 0 <= i < entries.len() && (#[trigger] entry_rate(entries[i]))->Ok_0.0 == k {
                let i = choose|i: int| 0 <= i < entries.len() && (#[trigger] entry_rate(entries[i]))->Ok_0.0 == k;
                if i < last {
                    assert(init[i] == entries[i]);
                }
            }
        }
        assert forall|i: int|
            0 <= i < entries.len() && (forall|j: int| i < j < entries.len()
                ==> (#[trigger] entry_rate(entries[j]))->Ok_0.0 != entry_rate(entries[i])->Ok_0.0)
            implies rates_of_entries(entries)->Ok_0[(#[trigger] entry_rate(entries[i]))->Ok_0.0]
                == entry_rate(entries[i])->Ok_0.1 by {
            if i < last {
                assert(init[i] == entries[i]);
                assert(entry_rate(entries[last])->Ok_0.0 != entry_rate(entries[i])->Ok_0.0);
                assert forall|j: int| i < j < init.len() implies
                    (#[trigger] entry_rate(init[j]))->Ok_0.0 != entry_rate(init[i])->Ok_0.0 by {
                    assert(init[j] == entries[j]);
                }
            }
        }
    }
}

/// The first entry that cannot be read decides the error, whatever follows.
pub proof fn law_first_unreadable_entry(entries: Seq<Seq<char>>, i: int)
    requires
        0 <= i < entries.len(),
        entry_rate(entries[i]) is Err,
        forall|j: int| 0 <= j < i ==> (#[trigger] entry_rate(entries[j])) is Ok,
    ensures
        rates_of_entries(entries) == Err::<Map<Seq<char>, ExchangeRate>, StreamError>(
            entry_rate(entries[i])->Err_0,
        ),
{
    let prefix = entries.take(i);
    assert forall|j: int| 0 <= j < prefix.len() implies (#[trigger] entry_rate(prefix[j])) is Ok by {
        assert(prefix[j] == entries[j]);
    }
    law_readable_entries(prefix);
    assert(entries.take(i + 1).drop_last() =~= prefix);
    assert(entries.take(i + 1).last() == entries[i]);
    lemma_rates_error_persists(entries, i + 1, entry_rate(entries[i])->Err_0);
}

/// The pieces joined again, with a comma between each two.
pub open spec fn join_commas(pieces: Seq<Seq<char>>) -> Seq<char>
    decreases pieces.len(),
{
    if pieces.len() == 0 {
        Seq::empty()
    } else if pieces.len() == 1 {
        pieces[0]
    } else {
        join_commas(pieces.drop_last()) + seq![','] + pieces.last()
    }
}

/// Splitting at commas loses nothing: the pieces hold no comma, and joining
/// them with commas gives the text back.
pub proof fn law_split_commas_join(s: Seq<char>)
    ensures
        join_commas(split_commas(s)) == s,
        forall|i: int| 0 <= i < split_commas(s).len() ==> !(#[trigger] split_commas(s)[i]).contains(','),
    decreases s.len(),
{
    if s.len() == 0 {
        assert(join_commas(split_commas(s)) =~= s);
    } else {
        let init = split_commas(s.drop_last());
        law_split_commas_join(s.drop_last());
        lemma_split_commas_nonempty(s.drop_last());
        let c = s.last();
        if c == ',' {
            let pieces = init.push(Seq::<char>::empty());
            assert(pieces.drop_last() =~= init);
            assert(join_commas(pieces) =~= s);
            assert forall|i: int| 0 <= i < pieces.len() implies !(#[trigger] pieces[i]).contains(',') by {
                if i < init.len() {
                    assert(pieces[i] == init[i]);
                }
            }
        } else {
            let n = init.len();
            let grown = init.last().push(c);
            let pieces = init.update(n - 1, grown);
            if n == 1 {
                assert(join_commas(pieces) =~= s);
            } else {
                assert(pieces.drop_last() =~= init.drop_last());
                assert(pieces.last() == grown);
                let head = join_commas(init.drop_last()) + seq![','];
                assert(join_commas(init) == head + init.last());
                assert(join_commas(pieces) == head + grown);
                assert(s =~= s.drop_last().push(c));
                assert(head + grown =~= (head + init.last()).push(c));
            }
            assert forall|i: int| 0 <= i < pieces.len() implies !(#[trigger] pieces[i]).contains(',') by {
                if i < n - 1 {
                    assert(pieces[i] == init[i]);
                } else {
                    assert(!init[n - 1].contains(','));
                    if grown.contains(',') {
                        let k = choose|k: int| 0 <= k < grown.len() && grown[k] == ',';
                        if k < init[n - 1].len() {
                            assert(init[n - 1][k] == ',');
                        }
                    }
                }
            }
        }
    }
}

// ---------------------------------------------------------------------------
// Laws on where the list is found, how an entry is read, and which entries
// are read
// ---------------------------------------------------------------------------

/// Attribute `a` of event `ev` is an exchange-rate list of a vote.
pub open spec fn holds_rate_list(ev: FeedDataTxLogEvent, a: int) -> bool {
    &&& 0 <= a < ev.attributes@.len()
    &&& ev.event_type@ == "aggregate_vote"@
    &&& ev.attributes@[a].key@ == "exchange_rates"@
}

/// Transaction `t`, log `l`, event `e`, attribute `a` of the block is an
/// exchange-rate list of a vote.
pub open spec fn rate_list_at(feed: Feed, t: int, l: int, e: int, a: int) -> bool {
    &&& 0 <= t < feed.data.txs@.len()
    &&& 0 <= l < feed.data.txs@[t].logs@.len()
    &&& 0 <= e < feed.data.txs@[t].logs@[l].events@.len()
    &&& holds_rate_list(feed.data.txs@[t].logs@[l].events@[e], a)
}

/// Position `(t1, l1, e1, a1)` comes before `(t2, l2, e2, a2)` in the order
/// of transactions, then logs, then events, then attributes.
pub open spec fn comes_before(t1: int, l1: int, e1: int, a1: int, t2: int, l2: int, e2: int, a2: int) -> bool {
    ||| t1 < t2
    ||| t1 == t2 && l1 < l2
    ||| t1 == t2 && l1 == l2 && e1 < e2
    ||| t1 == t2 && l1 == l2 && e1 == e2 && a1 < a2
}

proof fn lemma_flat_map_prefix_empty<A>(xs: Seq<A>, f: spec_fn(A) -> Seq<Seq<char>>, i: int)
    requires
        0 <= i <= xs.len(),
        forall|j: int| 0 <= j < i ==> (#[trigger] f(xs[j])).len() == 0,
    ensures
        xs.take(i).flat_map(f).len() == 0,
    decreases i,
{
    if i == 0 {
        lemma_take_zero_flat_map(xs, f);
    } else {
        lemma_flat_map_prefix_empty(xs, f, i - 1);
        assert(f(xs[i - 1]).len() == 0);
        lemma_none_found_step(xs, f, i - 1);
    }
}

proof fn lemma_flat_map_all_empty<A>(xs: Seq<A>, f: spec_fn(A) -> Seq<Seq<char>>)
    requires
        forall|j: int| 0 <= j < xs.len() ==> (#[trigger] f(xs[j])).len() == 0,
    ensures
        xs.flat_map(f).len() == 0,
{
    lemma_flat_map_prefix_empty(xs, f, xs.len() as int);
    lemma_none_found_end(xs, f);
}

proof fn lemma_flat_map_first<A>(xs: Seq<A>, f: spec_fn(A) -> Seq<Seq<char>>, i: int)
    requires
        0 <= i < xs.len(),
        f(xs[i]).len() > 0,
        forall|j: int| 0 <= j < i ==> (#[trigger] f(xs[j])).len() == 0,
    ensures
        xs.flat_map(f).len() > 0,
        xs.flat_map(f)[0] == f(xs[i])[0],
{
    lemma_flat_map_prefix_empty(xs, f, i);
    lemma_first_found(xs, f, i);
}

proof fn lemma_event_none(ev: FeedDataTxLogEvent)
    requires
        forall|a: int| !#[trigger] holds_rate_list(ev, a),
    ensures
        event_rate_values(ev).len() == 0,
{
    if ev.event_type@ == aggregate_vote_type() {
        let f = |x: FeedDataTxLogEventAttribute| attribute_rate_values(x);
        assert forall|j: int| 0 <= j < ev.attributes@.len() implies (#[trigger] f(ev.attributes@[j])).len() == 0 by {
            assert(!holds_rate_list(ev, j));
        }
        lemma_flat_map_all_empty(ev.attributes@, f);
    }
}

proof fn lemma_event_first(ev: FeedDataTxLogEvent, a: int)
    requires
        holds_rate_list(ev, a),
        forall|b: int| 0 <= b < a ==> !#[trigger] holds_rate_list(ev, b),
    ensures
        event_rate_values(ev).len() > 0,
        event_rate_values(ev)[0] == ev.attributes@[a].value@,
{
    let f = |x: FeedDataTxLogEventAttribute| attribute_rate_values(x);
    assert forall|j: int| 0 <= j < a implies (#[trigger] f(ev.attributes@[j])).len() == 0 by {
        assert(!holds_rate_list(ev, j));
    }
    lemma_flat_map_first(ev.attributes@, f, a);
}

proof fn lemma_log_none(log: FeedDataTxLog)
    requires
        forall|e: int, a: int| 0 <= e < log.events@.len() ==> !#[trigger] holds_rate_list(log.events@[e], a),
    ensures
        log_rate_values(log).len() == 0,
{
    let f = |x: FeedDataTxLogEvent| event_rate_values(x);
    assert forall|j: int| 0 <= j < log.events@.len() implies (#[trigger] f(log.events@[j])).len() == 0 by {
        lemma_event_none(log.events@[j]);
    }
    lemma_flat_map_all_empty(log.events@, f);
}

proof fn lemma_log_first(log: FeedDataTxLog, e: int, a: int)
    requires
        0 <= e < log.events@.len(),
        holds_rate_list(log.events@[e], a),
        forall|e2: int, a2: int| 0 <= e2 < e ==> !#[trigger] holds_rate_list(log.events@[e2], a2),
        forall|a2: int| 0 <= a2 < a ==> !#[trigger] holds_rate_list(log.events@[e], a2),
    ensures
        log_rate_values(log).len() > 0,
        log_rate_values(log)[0] == log.events@[e].attributes@[a].value@,
{
    let f = |x: FeedDataTxLogEvent| event_rate_values(x);
    assert forall|j: int| 0 <= j < e implies (#[trigger] f(log.events@[j])).len() == 0 by {
        lemma_event_none(log.events@[j]);
    }
    lemma_event_first(log.events@[e], a);
    lemma_flat_map_first(log.events@, f, e);
}

proof fn lemma_tx_none(tx: FeedDataTx)
    requires
        forall|l: int, e: int, a: int|
            0 <= l < tx.logs@.len() && 0 <= e < tx.logs@[l].events@.len()
                ==> !#[trigger] holds_rate_list(tx.logs@[l].events@[e], a),
    ensures
        tx_rate_values(tx).len() == 0,
{
    let f = |x: FeedDataTxLog| log_rate_values(x);
    assert forall|j: int| 0 <= j < tx.logs@.len() implies (#[trigger] f(tx.logs@[j])).len() == 0 by {
        assert forall|e: int, a: int| 0 <= e < tx.logs@[j].events@.len() implies
            !#[trigger] holds_rate_list(tx.logs@[j].events@[e], a) by {}
        lemma_log_none(tx.logs@[j]);
    }
    lemma_flat_map_all_empty(tx.logs@, f);
}

proof fn lemma_tx_first(tx: FeedDataTx, l: int, e: int, a: int)
    requires
        0 <= l < tx.logs@.len(),
        0 <= e < tx.logs@[l].events@.len(),
        holds_rate_list(tx.logs@[l].events@[e], a),
        forall|l2: int, e2: int, a2: int|
            0 <= l2 < tx.logs@.len() && 0 <= e2 < tx.logs@[l2].events@.len()
                && #[trigger] holds_rate_list(tx.logs@[l2].events@[e2], a2)
                ==> !comes_before(0, l2, e2, a2, 0, l, e, a),
    ensures
        tx_rate_values(tx).len() > 0,
        tx_rate_values(tx)[0] == tx.logs@[l].events@[e].attributes@[a].value@,
{
    let f = |x: FeedDataTxLog| log_rate_values(x);
    assert forall|j: int| 0 <= j < l implies (#[trigger] f(tx.logs@[j])).len() == 0 by {
        assert forall|e2: int, a2: int| 0 <= e2 < tx.logs@[j].events@.len() implies
            !#[trigger] holds_rate_list(tx.logs@[j].events@[e2], a2) by {
            assert(comes_before(0, j, e2, a2, 0, l, e, a));
        }
        lemma_log_none(tx.logs@[j]);
    }
    let log = tx.logs@[l];
    assert forall|e2: int, a2: int| 0 <= e2 < e implies !#[trigger] holds_rate_list(log.events@[e2], a2) by {
        assert(comes_before(0, l, e2, a2, 0, l, e, a));
    }
    assert forall|a2: int| 0 <= a2 < a implies !#[trigger] holds_rate_list(log.events@[e], a2) by {
        assert(comes_before(0, l, e, a2, 0, l, e, a));
    }
    lemma_log_first(log, e, a);
    lemma_flat_map_first(tx.logs@, f, l);
}

/// The list that is read is the value of the first `exchange_rates`
/// attribute of an `aggregate_vote` event, in the order of transactions, then
/// logs, then events, then attributes: wherever it stands in the block.
pub proof fn law_first_list_is_earliest(feed: Feed, t: int, l: int, e: int, a: int)
    requires
        rate_list_at(feed, t, l, e, a),
        forall|t2: int, l2: int, e2: int, a2: int|
            #[trigger] rate_list_at(feed, t2, l2, e2, a2) ==> !comes_before(t2, l2, e2, a2, t, l, e, a),
    ensures
        first_rate_value(feed) == Some(feed.data.txs@[t].logs@[l].events@[e].attributes@[a].value@),
{
    let txs = feed.data.txs@;
    let f = |x: FeedDataTx| tx_rate_values(x);
    assert forall|j: int| 0 <= j < t implies (#[trigger] f(txs[j])).len() == 0 by {
        assert forall|l2: int, e2: int, a2: int|
            0 <= l2 < txs[j].logs@.len() && 0 <= e2 < txs[j].logs@[l2].events@.len() implies
            !#[trigger] holds_rate_list(txs[j].logs@[l2].events@[e2], a2) by {
            if holds_rate_list(txs[j].logs@[l2].events@[e2], a2) {
                assert(rate_list_at(feed, j, l2, e2, a2));
                assert(comes_before(j, l2, e2, a2, t, l, e, a));
            }
        }
        lemma_tx_none(txs[j]);
    }
    let tx = txs[t];
    assert forall|l2: int, e2: int, a2: int|
        0 <= l2 < tx.logs@.len() && 0 <= e2 < tx.logs@[l2].events@.len()
            && #[trigger] holds_rate_list(tx.logs@[l2].events@[e2], a2)
            implies !comes_before(0, l2, e2, a2, 0, l, e, a) by {
        assert(rate_list_at(feed, t, l2, e2, a2));
        assert(!comes_before(t, l2, e2, a2, t, l, e, a));
    }
    lemma_tx_first(tx, l, e, a);
    lemma_flat_map_first(txs, f, t);
}

/// A block in which no `aggregate_vote` event has an `exchange_rates`
/// attribute has no list to read.
pub proof fn law_no_list_anywhere(feed: Feed)
    requires
        forall|t: int, l: int, e: int, a: int| !#[trigger] rate_list_at(feed, t, l, e, a),
    ensures
        first_rate_value(feed) is None,
{
    let txs = feed.data.txs@;
    let f = |x: FeedDataTx| tx_rate_values(x);
    assert forall|j: int| 0 <= j < txs.len() implies (#[trigger] f(txs[j])).len() == 0 by {
        assert forall|l2: int, e2: int, a2: int|
            0 <= l2 < txs[j].logs@.len() && 0 <= e2 < txs[j].logs@[l2].events@.len() implies
            !#[trigger] holds_rate_list(txs[j].logs@[l2].events@[e2], a2) by {
            assert(!rate_list_at(feed, j, l2, e2, a2));
        }
        lemma_tx_none(txs[j]);
    }
    lemma_flat_map_all_empty(txs, f);
}

/// An entry is read through the two pattern matches: its asset name is the
/// match of the name pattern, and its rate is the decimal that `rust_decimal`
/// makes of exactly the text that the rate pattern matched. Each error comes
/// from the first of these steps that fails.
pub proof fn law_entry_reads_its_matches(entry: Seq<char>)
    ensures
        entry_rate(entry) matches Ok((symbol, rate)) ==> {
            &&& symbol_match(entry) == Some(symbol)
            &&& rate_match(entry) is Some
            &&& decimal_from_str(rate_match(entry)->Some_0) == Some((rate.mantissa, rate.scale))
        },
        (symbol_match(entry) is Some && rate_match(entry) is Some
            && decimal_from_str(rate_match(entry)->Some_0) is Some) ==> entry_rate(entry) is Ok,
        symbol_match(entry) is None ==> entry_rate(entry) == Err::<(Seq<char>, ExchangeRate), StreamError>(StreamError::SymbolNotFound),
        symbol_match(entry) is Some && rate_match(entry) is None
            ==> entry_rate(entry) == Err::<(Seq<char>, ExchangeRate), StreamError>(StreamError::RateNotFound),
        symbol_match(entry) is Some && rate_match(entry) is Some
            && decimal_from_str(rate_match(entry)->Some_0) is None
            ==> entry_rate(entry) == Err::<(Seq<char>, ExchangeRate), StreamError>(StreamError::InvalidRate),
{
}

/// Every entry of the list is read: the rates of a block are those of all
/// the comma-separated entries of its first list, and when each entry can be
/// read, the asset name of each one is in the table.
pub proof fn law_every_entry_read(feed: Feed, list: Seq<char>)
    requires
        first_rate_value(feed) == Some(list),
    ensures
        block_rates(feed) == rates_of_entries(split_commas(list)),
        (forall|i: int| 0 <= i < split_commas(list).len() ==> (#[trigger] entry_rate(split_commas(list)[i])) is Ok)
            ==> {
            &&& block_rates(feed) is Ok
            &&& forall|i: int| 0 <= i < split_commas(list).len()
                ==> block_rates(feed)->Ok_0.dom().contains(
                    (#[trigger] symbol_match(split_commas(list)[i]))->Some_0,
                )
        },
{
    let pieces = split_commas(list);
    if forall|i: int| 0 <= i < pieces.len() ==> (#[trigger] entry_rate(pieces[i])) is Ok {
        law_readable_entries(pieces);
        assert forall|i: int| 0 <= i < pieces.len() implies
            block_rates(feed)->Ok_0.dom().contains((#[trigger] symbol_match(pieces[i]))->Some_0) by {
            law_entry_reads_its_matches(pieces[i]);
            assert(entry_rate(pieces[i]) is Ok);
            assert(entry_rate(pieces[i])->Ok_0.0 == symbol_match(pieces[i])->Some_0);
        }
    }
}

} // verus!
