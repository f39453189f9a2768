//! What the hosting runtime hands to an operation and takes back from it:
//! the block time, the caller with the funds attached to the call, resolved
//! identities, and the response with its transfer requests.
use vstd::prelude::*;
use crate::error::{StdError, StdErrorView};
use crate::seqs::views;

verus! {

/// The denomination of the one currency.
pub open spec fn denom() -> Seq<char> {
    "uxion"@
}

/// What the identity service made of one raw identifier: the party's
/// canonical name, or the reason why it names no party.
pub type Resolved = Result<String, StdError>;

/// What a [`Resolved`] holds, as contracts speak of it.
pub type ResolvedView = Result<Seq<char>, StdErrorView>;

/// The view of a resolved identifier.
pub open spec fn party(r: Resolved) -> ResolvedView {
    match r {
        Ok(name) => Ok(name@),
        Err(e) => Err(e@),
    }
}

/// The views of a sequence of resolved identifiers.
pub open spec fn parties(s: Seq<Resolved>) -> Seq<ResolvedView> {
    Seq::new(s.len(), |i: int| party(s[i]))
}

/// The names that a sequence of resolved identifiers gives; an identifier
/// that names no party gives the empty name.
pub open spec fn names_of(s: Seq<ResolvedView>) -> Seq<Seq<char>> {
    Seq::new(
        s.len(),
        |i: int|
            match s[i] {
                Ok(name) => name,
                Err(_) => Seq::empty(),
            },
    )
}

/// The time at which an operation runs.
#[derive(Clone, Debug, PartialEq, Eq)]
pub struct Env {
    /// Block time, in nanoseconds since the epoch.
    pub time: u64,
}

/// An amount of one denomination.
#[derive(Clone, Debug, PartialEq, Eq)]
pub struct Coin {
    pub denom: String,
    pub amount: u128,
}

/// What a [`Coin`] holds, as contracts speak of it.
pub struct CoinView {
    pub denom: Seq<char>,
    pub amount: u128,
}

impl View for Coin {
    type V = CoinView;

    open spec fn view(&self) -> CoinView {
        CoinView { denom: self.denom@, amount: self.amount }
    }
}

/// The caller of an operation and the funds attached to the call.
#[derive(Clone, Debug, PartialEq, Eq)]
pub struct MessageInfo {
    pub sender: String,
    pub funds: Vec<Coin>,
}

/// A request to the runtime to move funds out of the ledger's account.
#[derive(Clone, Debug, PartialEq, Eq)]
pub enum BankMsg {
    Send { to_address: String, amount: Vec<Coin> },
}

/// What a [`BankMsg`] holds, as contracts speak of it.
pub enum BankMsgView {
    Send { to_address: Seq<char>, amount: Seq<CoinView> },
}

impl View for BankMsg {
    type V = BankMsgView;

    open spec fn view(&self) -> BankMsgView {
        match *self {
            BankMsg::Send { to_address, amount } => BankMsgView::Send {
                to_address: to_address@,
                amount: views(amount@),
            },
        }
    }
}

/// The request that sends `amount` of the one currency to `to`.
pub open spec fn payment(to: Seq<char>, amount: u128) -> BankMsgView {
    BankMsgView::Send { to_address: to, amount: seq![CoinView { denom: denom(), amount }] }
}

/// What a successful operation answers: the transfers it asks for, in order,
/// and the attributes that describe what was done.
#[derive(Clone, Debug, PartialEq, Eq)]
pub struct Response {
    pub messages: Vec<BankMsg>,
    pub attributes: Vec<(String, String)>,
}

/// What a [`Response`] holds, as contracts speak of it.
pub struct ResponseView {
    pub messages: Seq<BankMsgView>,
    pub attributes: Seq<(Seq<char>, Seq<char>)>,
}

impl View for Response {
    type V = ResponseView;

    open spec fn view(&self) -> ResponseView {
        ResponseView { messages: views(self.messages@), attributes: views(self.attributes@) }
    }
}

/// The funds of the one currency among `funds`: the amount of the first coin
/// of that denomination, nothing where there is none.
pub open spec fn attached(funds: Seq<CoinView>) -> u128
    decreases funds.len(),
{
    if funds.len() == 0 {
        0
    } else if funds[0].denom == denom() {
        funds[0].amount
    } else {
        attached(funds.drop_first())
    }
}

impl MessageInfo {
    /// The funds of the one currency attached to the call.
    pub fn attached_funds(&self) -> (amount: u128)
        ensures
            amount == attached(views(self.funds@)),
    {
        let ghost all = views(self.funds@);
        let unit = String::from_str("uxion");
        let mut i: usize = 0;
        assert(all.subrange(0, all.len() as int) =~= all);
        while i < self.funds.len()
            invariant
                i <= self.funds.len(),
                all == views(self.funds@),
                unit@ == denom(),
                attached(all) == attached(all.subrange(i as int, all.len() as int)),
            decreases self.funds.len() - i,
        {
            let ghost rest = all.subrange(i as int, all.len() as int);
            assert(rest[0] == all[i as int]);
            assert(rest.drop_first() =~= all.subrange(i + 1, all.len() as int));
            if self.funds[i].denom == unit {
                return self.funds[i].amount;
            }
            i += 1;
        }
        assert(all.subrange(i as int, all.len() as int).len() == 0);
        0
    }
}

impl Response {
    /// A response without transfers or attributes.
    pub fn new() -> (r: Self)
        ensures
            r@.messages == Seq::<BankMsgView>::empty(),
            r@.attributes == Seq::<(Seq<char>, Seq<char>)>::empty(),
    {
        let r = Response { messages: Vec::new(), attributes: Vec::new() };
        assert(r@.messages =~= Seq::<BankMsgView>::empty());
        assert(r@.attributes =~= Seq::<(Seq<char>, Seq<char>)>::empty());
        r
    }

    /// Adds the attribute `key` with `value` after those that are there.
    pub fn add_attribute(&mut self, key: &str, value: String)
        ensures
            final(self)@.messages == old(self)@.messages,
            final(self)@.attributes == old(self)@.attributes.push((key@, value@)),
    {
        self.attributes.push((String::from_str(key), value));
        assert(self@.attributes =~= old(self)@.attributes.push((key@, value@)));
    }

    /// Adds a transfer of `amount` of the one currency to `to`, after those
    /// that are there.
    pub fn add_payment(&mut self, to: &String, amount: u128)
        ensures
            final(self)@.attributes == old(self)@.attributes,
            final(self)@.messages == old(self)@.messages.push(payment(to@, amount)),
    {
        let mut coins: Vec<Coin> = Vec::new();
        coins.push(Coin { denom: String::from_str("uxion"), amount });
        let msg = BankMsg::Send { to_address: to.clone(), amount: coins };
        assert(views(coins@) =~= seq![CoinView { denom: denom(), amount }]);
        assert(msg@ == payment(to@, amount));
        self.messages.push(msg);
        assert(self@.messages =~= old(self)@.messages.push(payment(to@, amount)));
    }
}

} // verus!
