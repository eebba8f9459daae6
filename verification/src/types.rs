//! Deals, orders and assets.

use crate::clock::DateTime;
use crate::decimal::Decimal;
use crate::string_map::distinct;
use crate::string_map::lemma_map_of;
use crate::string_map::map_of;
use crate::string_map::StringMap;
use vstd::prelude::*;

verus! {

/// Which way a trade bets.
#[derive(Clone, Copy, Debug, PartialEq, Eq, Structural)]
pub enum Action {
    Call,
    Put,
}

/// What a request is known by: an identifier of the client, or its number on the wire.
#[derive(Clone, Copy, Debug, PartialEq, Eq, Structural)]
pub enum RequestId {
    Uuid(u128),
    Number(u64),
}

/// A trade as the exchange reports it.
#[derive(Debug)]
pub struct Deal {
    pub id: u128,
    pub asset: String,
    pub amount: Decimal,
    pub open_price: Decimal,
    pub close_price: Decimal,
    pub open_timestamp: DateTime,
    pub close_timestamp: DateTime,
    pub profit: Decimal,
    pub percent_profit: i32,
    pub percent_loss: i32,
    pub command: i32,
    pub uid: u64,
    pub request_id: Option<RequestId>,
    pub open_time: String,
    pub close_time: String,
    pub refund_time: Option<String>,
    pub refund_timestamp: Option<DateTime>,
    pub is_demo: u32,
    pub copy_ticket: String,
    pub open_ms: i32,
    pub close_ms: Option<i32>,
    pub option_type: i32,
    pub is_rollover: Option<bool>,
    pub is_copy_signal: Option<bool>,
    pub is_ai: Option<bool>,
    pub currency: String,
    pub amount_usd: Option<Decimal>,
    pub amount_usd2: Option<Decimal>,
}

pub struct DealView {
    pub id: u128,
    pub asset: Seq<char>,
    pub amount: Decimal,
    pub open_price: Decimal,
    pub close_price: Decimal,
    pub open_timestamp: DateTime,
    pub close_timestamp: DateTime,
    pub profit: Decimal,
    pub percent_profit: i32,
    pub percent_loss: i32,
    pub command: i32,
    pub uid: u64,
    pub request_id: Option<RequestId>,
    pub open_time: Seq<char>,
    pub close_time: Seq<char>,
    pub refund_time: Option<Seq<char>>,
    pub refund_timestamp: Option<DateTime>,
    pub is_demo: u32,
    pub copy_ticket: Seq<char>,
    pub open_ms: i32,
    pub close_ms: Option<i32>,
    pub option_type: i32,
    pub is_rollover: Option<bool>,
    pub is_copy_signal: Option<bool>,
    pub is_ai: Option<bool>,
    pub currency: Seq<char>,
    pub amount_usd: Option<Decimal>,
    pub amount_usd2: Option<Decimal>,
}

impl View for Deal {
    type V = DealView;

    open spec fn view(&self) -> DealView {
        DealView {
            id: self.id,
            asset: self.asset@,
            amount: self.amount,
            open_price: self.open_price,
            close_price: self.close_price,
            open_timestamp: self.open_timestamp,
            close_timestamp: self.close_timestamp,
            profit: self.profit,
            percent_profit: self.percent_profit,
            percent_loss: self.percent_loss,
            command: self.command,
            uid: self.uid,
            request_id: self.request_id,
            open_time: self.open_time@,
            close_time: self.close_time@,
            refund_time: match self.refund_time {
                Some(t) => Some(t@),
                None => None,
            },
            refund_timestamp: self.refund_timestamp,
            is_demo: self.is_demo,
            copy_ticket: self.copy_ticket@,
            open_ms: self.open_ms,
            close_ms: self.close_ms,
            option_type: self.option_type,
            is_rollover: self.is_rollover,
            is_copy_signal: self.is_copy_signal,
            is_ai: self.is_ai,
            currency: self.currency@,
            amount_usd: self.amount_usd,
            amount_usd2: self.amount_usd2,
        }
    }
}

impl Deal {
    /// The same deal once more.
    pub fn copied(&self) -> (r: Deal)
        ensures
            r@ == self@,
    {
        Deal {
            id: self.id,
            asset: self.asset.clone(),
            amount: self.amount,
            open_price: self.open_price,
            close_price: self.close_price,
            open_timestamp: self.open_timestamp,
            close_timestamp: self.close_timestamp,
            profit: self.profit,
            percent_profit: self.percent_profit,
            percent_loss: self.percent_loss,
            command: self.command,
            uid: self.uid,
            request_id: self.request_id,
            open_time: self.open_time.clone(),
            close_time: self.close_time.clone(),
            refund_time: match &self.refund_time {
                Some(t) => Some(t.clone()),
                None => None,
            },
            refund_timestamp: self.refund_timestamp,
            is_demo: self.is_demo,
            copy_ticket: self.copy_ticket.clone(),
            open_ms: self.open_ms,
            close_ms: self.close_ms,
            option_type: self.option_type,
            is_rollover: self.is_rollover,
            is_copy_signal: self.is_copy_signal,
            is_ai: self.is_ai,
            currency: self.currency.clone(),
            amount_usd: self.amount_usd,
            amount_usd2: self.amount_usd2,
        }
    }
}

pub open spec fn deals_view(deals: Seq<Deal>) -> Seq<DealView> {
    deals.map_values(|d: Deal| d@)
}

/// What an asset is.
#[derive(Clone, Copy, Debug, PartialEq, Eq, Structural)]
pub enum AssetType {
    Stock,
    Currency,
    Commodity,
    Cryptocurrency,
    Index,
}

/// The length of a candle in seconds.
#[derive(Clone, Copy, Debug, PartialEq, Eq, Structural)]
pub struct CandleLength {
    time: u32,
}

impl CandleLength {
    pub closed spec fn spec_duration(self) -> u32 {
        self.time
    }

    pub fn new(time: u32) -> (r: CandleLength)
        ensures
            r.spec_duration() == time,
    {
        CandleLength { time }
    }

    pub fn duration(&self) -> (r: u32)
        ensures
            r == self.spec_duration(),
    {
        self.time
    }
}

/// Something that can be traded.
#[derive(Debug)]
pub struct Asset {
    pub id: i32,
    pub symbol: String,
    pub name: String,
    pub asset_type: AssetType,
    pub payout: i32,
    pub is_otc: bool,
    pub is_active: bool,
    pub allowed_candles: Vec<CandleLength>,
}

pub struct AssetView {
    pub id: i32,
    pub symbol: Seq<char>,
    pub name: Seq<char>,
    pub asset_type: AssetType,
    pub payout: i32,
    pub is_otc: bool,
    pub is_active: bool,
    pub allowed_candles: Seq<CandleLength>,
}

impl View for Asset {
    type V = AssetView;

    open spec fn view(&self) -> AssetView {
        AssetView {
            id: self.id,
            symbol: self.symbol@,
            name: self.name@,
            asset_type: self.asset_type,
            payout: self.payout,
            is_otc: self.is_otc,
            is_active: self.is_active,
            allowed_candles: self.allowed_candles@,
        }
    }
}

impl Asset {
    /// The same asset once more.
    pub fn copied(&self) -> (r: Asset)
        ensures
            r@ == self@,
    {
        let allowed_candles = self.allowed_candles.clone();
        assert(allowed_candles@ =~= self.allowed_candles@);
        Asset {
            id: self.id,
            symbol: self.symbol.clone(),
            name: self.name.clone(),
            asset_type: self.asset_type,
            payout: self.payout,
            is_otc: self.is_otc,
            is_active: self.is_active,
            allowed_candles,
        }
    }
}

/// All assets, by symbol.
#[derive(Debug)]
pub struct Assets(pub StringMap<Asset>);

impl Assets {
    pub open spec fn view(&self) -> Map<Seq<char>, AssetView> {
        self.0.view().map_values(|a: Asset| a@)
    }

    /// The symbols of the assets that can be traded now.
    pub open spec fn active_symbols(&self) -> Set<Seq<char>> {
        self.view().dom().filter(|k: Seq<char>| self.view()[k].is_active)
    }

    pub fn get(&self, symbol: &str) -> (r: Option<&Asset>)
        ensures
            match r {
                Some(a) => self.view().dom().contains(symbol@) && a@ == self.view()[symbol@],
                None => !self.view().dom().contains(symbol@),
            },
    {
        self.0.get(symbol)
    }

    /// The symbols of all assets, in the order in which they came in.
    pub fn names(&self) -> (r: Vec<&str>)
        ensures
            r@.len() == self.0.spec_entries().len(),
            forall|i: int|
                0 <= i < r@.len() ==> (#[trigger] r@[i])@ == self.0.spec_entries()[i].0@,
    {
        let mut names: Vec<&str> = Vec::new();
        let mut i: usize = 0;
        while i < self.0.len()
            invariant
                i <= self.0.spec_entries().len(),
                names@.len() == i,
                forall|j: int|
                    0 <= j < i ==> (#[trigger] names@[j])@ == self.0.spec_entries()[j].0@,
            decreases self.0.spec_entries().len() - i,
        {
            names.push(self.0.entry(i).0);
            i += 1;
        }
        names
    }
}

/// The entries of the assets that can be traded now, as they stand.
pub open spec fn active_entries(entries: Seq<(String, Asset)>) -> Seq<(String, Asset)>
    decreases entries.len(),
{
    if entries.len() == 0 {
        entries
    } else if entries.last().1.is_active {
        active_entries(entries.drop_last()).push(entries.last())
    } else {
        active_entries(entries.drop_last())
    }
}

proof fn lemma_active_entries(entries: Seq<(String, Asset)>)
    requires
        distinct(entries),
    ensures
        distinct(active_entries(entries)),
        forall|e: (String, Asset)| #[trigger]
            active_entries(entries).contains(e) <==> entries.contains(e) && e.1.is_active,
    decreases entries.len(),
{
    if entries.len() > 0 {
        let t = entries.drop_last();
        let last = entries.len() - 1;
        assert(distinct(t)) by {
            assert forall|i: int, j: int| 0 <= i < j < t.len() implies (#[trigger] t[i]).0@ != (
            #[trigger] t[j]).0@ by {
                assert(entries[i].0@ != entries[j].0@);
            }
        }
        lemma_active_entries(t);
        let earlier = active_entries(t);
        let all = active_entries(entries);
        assert forall|a: int, b: int| 0 <= a < b < all.len() implies (#[trigger] all[a]).0@ != (
        #[trigger] all[b]).0@ by {
            assert(all[a] == earlier[a]);
            if b < earlier.len() {
                assert(all[b] == earlier[b]);
            } else {
                assert(earlier.contains(earlier[a]));
                let i = t.index_of(earlier[a]);
                assert(entries[i].0@ != entries[last].0@);
            }
        }
        assert forall|e: (String, Asset)| #[trigger] all.contains(e) <==> entries.contains(e)
            && e.1.is_active by {
            if all.contains(e) {
                let j = all.index_of(e);
                if j < earlier.len() {
                    assert(earlier.contains(earlier[j]));
                    let i = t.index_of(e);
                    assert(entries[i] == e);
                } else {
                    assert(entries[last] == e);
                }
            }
            if entries.contains(e) && e.1.is_active {
                let i = entries.index_of(e);
                if i < last {
                    assert(t[i] == e);
                    assert(earlier.contains(e));
                    let j = earlier.index_of(e);
                    assert(all[j] == e);
                } else {
                    assert(all[all.len() - 1] == e);
                }
            }
        }
    }
}

/// A key of the map has an entry, and an entry a key.
proof fn lemma_entry_of(entries: Seq<(String, Asset)>, k: Seq<char>) -> (e: (String, Asset))
    requires
        distinct(entries),
        map_of(entries).dom().contains(k),
    ensures
        entries.contains(e),
        e.0@ == k,
        map_of(entries)[k] == e.1,
{
    lemma_map_of(entries);
    let i = choose|i: int| 0 <= i < entries.len() && (#[trigger] entries[i]).0@ == k;
    entries[i]
}

/// The active entries are those of the map whose asset can be traded.
proof fn lemma_active_map(entries: Seq<(String, Asset)>)
    requires
        distinct(entries),
    ensures
        map_of(active_entries(entries)).dom() == map_of(entries).dom().filter(
            |k: Seq<char>| map_of(entries)[k].is_active,
        ),
        forall|k: Seq<char>| #[trigger]
            map_of(active_entries(entries)).dom().contains(k) ==> map_of(
                active_entries(entries),
            )[k] == map_of(entries)[k],
{
    lemma_active_entries(entries);
    let active = active_entries(entries);
    let own = map_of(active);
    let all = map_of(entries);
    let wanted = all.dom().filter(|k: Seq<char>| all[k].is_active);
    assert forall|k: Seq<char>| #[trigger] own.dom().contains(k) implies all.dom().contains(k)
        && all[k] == own[k] && all[k].is_active by {
        let e = lemma_entry_of(active, k);
        assert(active.contains(e));
        let i = entries.index_of(e);
        lemma_map_of(entries);
        assert(all.dom().contains(entries[i].0@));
    }
    assert forall|k: Seq<char>| #[trigger] wanted.contains(k) implies own.dom().contains(k) by {
        let e = lemma_entry_of(entries, k);
        assert(active.contains(e));
        let j = active.index_of(e);
        lemma_map_of(active);
        assert(own.dom().contains(active[j].0@));
    }
    assert(own.dom() =~= wanted);
}

impl Assets {
    /// How many assets can be traded now.
    pub fn active_count(&self) -> (r: usize)
        ensures
            self.active_symbols().finite(),
            r == self.active_symbols().len(),
    {
        let active = self.active_iter();
        proof {
            let entries = self.0.spec_entries();
            lemma_active_entries(entries);
            lemma_map_of(active_entries(entries));
            lemma_active_map(entries);
            assert(self.active_symbols() =~= map_of(active_entries(entries)).dom());
        }
        active.len()
    }

    /// The assets that can be traded now, in the order in which they came in.
    pub fn active_iter(&self) -> (r: Vec<&Asset>)
        ensures
            r@.len() == active_entries(self.0.spec_entries()).len(),
            forall|i: int|
                0 <= i < r@.len() ==> *(#[trigger] r@[i]) == active_entries(
                    self.0.spec_entries(),
                )[i].1,
            distinct(self.0.spec_entries()),
    {
        self.0.show_distinct();
        let ghost entries = self.0.spec_entries();
        let mut active: Vec<&Asset> = Vec::new();
        let mut i: usize = 0;
        while i < self.0.len()
            invariant
                entries == self.0.spec_entries(),
                i <= entries.len(),
                active@.len() == active_entries(entries.take(i as int)).len(),
                forall|j: int|
                    0 <= j < active@.len() ==> *(#[trigger] active@[j]) == active_entries(
                        entries.take(i as int),
                    )[j].1,
            decreases entries.len() - i,
        {
            let asset = self.0.entry(i).1;
            assert(entries.take(i + 1).drop_last() =~= entries.take(i as int));
            if asset.is_active {
                active.push(asset);
            }
            i += 1;
        }
        assert(entries.take(i as int) =~= entries);
        active
    }

    /// The assets that can be traded now, in a collection of their own.
    pub fn active(&self) -> (r: Assets)
        ensures
            r.view() == self.view().restrict(self.active_symbols()),
    {
        self.0.show_distinct();
        let ghost entries = self.0.spec_entries();
        let mut active: StringMap<Asset> = StringMap::new();
        let mut i: usize = 0;
        assert(active.view().map_values(|a: Asset| a@) =~= Map::<Seq<char>, AssetView>::empty());
        assert(map_of(active_entries(entries.take(0))).map_values(|a: Asset| a@) =~= Map::<
            Seq<char>,
            AssetView,
        >::empty());
        while i < self.0.len()
            invariant
                entries == self.0.spec_entries(),
                i <= entries.len(),
                active.view().map_values(|a: Asset| a@) == map_of(
                    active_entries(entries.take(i as int)),
                ).map_values(|a: Asset| a@),
            decreases entries.len() - i,
        {
            let (symbol, asset) = self.0.entry(i);
            let ghost before = active.view();
            assert(entries.take(i + 1).drop_last() =~= entries.take(i as int));
            if asset.is_active {
                let copy = asset.copied();
                active.insert(symbol, copy);
                proof {
                    let earlier = active_entries(entries.take(i as int));
                    let more = active_entries(entries.take(i + 1));
                    assert(more.drop_last() =~= earlier);
                    assert(before.insert(symbol@, copy).map_values(|a: Asset| a@)
                        =~= before.map_values(|a: Asset| a@).insert(symbol@, copy@));
                    assert(map_of(earlier).insert(symbol@, *asset).map_values(|a: Asset| a@)
                        =~= map_of(earlier).map_values(|a: Asset| a@).insert(symbol@, asset@));
                }
            }
            i += 1;
        }
        proof {
            assert(entries.take(i as int) =~= entries);
            lemma_active_map(entries);
            assert(self.active_symbols() =~= map_of(active_entries(entries)).dom());
            assert(active.view().map_values(|a: Asset| a@) =~= self.view().restrict(
                self.active_symbols(),
            ));
        }
        Assets(active)
    }
}

} // verus!
