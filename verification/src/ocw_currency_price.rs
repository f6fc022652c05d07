//! The price-fetching pallet: a bounded list of token names submitted by
//! signed calls, bounded histories of token information, and the decisions
//! of the offchain worker that fetches prices (which itself does the I/O).
use crate::dispatch::{ensure_signed, signer_of, DispatchError, DispatchResult, Origin};
use std::collections::VecDeque;
use vstd::prelude::*;

verus! {

/// How many token names the list keeps.
pub const NUM_VEC_LEN: usize = 10;

/// The priority of unsigned transactions.
pub const UNSIGNED_TXS_PRIORITY: u64 = 100;

/// How many entries the information history of a token keeps.
pub const TOKENINFO_VEC_LEN: usize = 10;

/// The quote currency appended to a token name in a price request.
pub const TOKEN_USDT: &'static str = "usdt";

/// The endpoint that prices are requested from.
pub const HTTP_REMOTE_REQUEST: &'static str = "http://141.164.45.97:8080/ares/api/getPartyPrice/";

/// The user agent of price requests.
pub const HTTP_HEADER_USER_AGENT: &'static str = "Nozdormu";

/// How long a price request may take, in milliseconds.
pub const FETCH_TIMEOUT_PERIOD: u64 = 3000;

/// After how many milliseconds the fetch lock expires.
pub const LOCK_TIMEOUT_EXPIRATION: u64 = FETCH_TIMEOUT_PERIOD + 1000;

/// After how many blocks the fetch lock expires.
pub const LOCK_BLOCK_EXPIRATION: u32 = 3;

/// The number of kinds of offchain work the worker cycles through.
pub const TX_TYPES: u32 = 4;

/// Information about a token: its name, the exchange quoting it, and its price.
#[derive(Default, Clone, PartialEq)]
pub struct TokenInfo {
    name: Vec<u8>,
    exchange: Vec<u8>,
    price: u32,
}

/// The text that `bytes` spell in UTF-8, or `None` where they are not UTF-8.
pub uninterp spec fn utf8_text(bytes: Seq<u8>) -> Option<Seq<char>>;

/// Calls `std::str::from_utf8`. Claimed: it gives the text that the bytes
/// spell (named `utf8_text`), and fails exactly where they are not UTF-8.
#[verifier::external_body]
fn text_of(bytes: &[u8]) -> (r: Option<&str>)
    ensures
        match r {
            Some(t) => utf8_text(bytes@) == Some(t@),
            None => utf8_text(bytes@) is None,
        },
{
    match std::str::from_utf8(bytes) {
        Ok(t) => Some(t),
        Err(_) => None,
    }
}

/// Calls `String::push_str`. Claimed: `t` is appended to `s`.
#[verifier::external_body]
fn append_str(s: &mut String, t: &str)
    ensures
        final(s)@ == old(s)@ + t@,
{
    s.push_str(t)
}

/// Calls `String::push`. Claimed: `c` is appended to `s`.
#[verifier::external_body]
fn append_char(s: &mut String, c: char)
    ensures
        final(s)@ == old(s)@.push(c),
{
    s.push(c)
}

/// The decimal digit `d`.
pub open spec fn digit_char(d: nat) -> char {
    (48 + d) as char
}

/// The decimal digits of `n`, most significant first, without leading zeros.
pub open spec fn decimal(n: nat) -> Seq<char>
    decreases n,
{
    if n < 10 {
        seq![digit_char(n)]
    } else {
        decimal(n / 10).push(digit_char(n % 10))
    }
}

/// Appends the decimal digits of `n` to `s`.
fn push_decimal(s: &mut String, n: u32)
    ensures
        final(s)@ == old(s)@ + decimal(n as nat),
    decreases n,
{
    if n >= 10 {
        push_decimal(s, n / 10);
    }
    let d: u8 = (n % 10) as u8;
    let c = (48u8 + d) as char;
    proof {
        assert(c == digit_char((n % 10) as nat));
    }
    append_char(s, c);
    assert(s@ =~= old(s)@ + decimal(n as nat));
}

/// The text of the request for the price of `token_name`: the endpoint, the
/// name and the quote currency, or `None` where the name is not UTF-8.
pub open spec fn request_url(token_name: Seq<u8>) -> Option<Seq<char>> {
    match utf8_text(token_name) {
        Some(t) => Some(HTTP_REMOTE_REQUEST@ + t + TOKEN_USDT@),
        None => None,
    }
}

/// The request for the price of `token_name`: the endpoint followed by the
/// name and the quote currency (`btc` asks for the pair `btcusdt`); `None`
/// where the name is not UTF-8.
pub fn price_request_url(token_name: &Vec<u8>) -> (r: Option<String>)
    ensures
        r is None <==> request_url(token_name@) is None,
        r matches Some(u) ==> request_url(token_name@) == Some(u@),
{
    match text_of(token_name.as_slice()) {
        None => None,
        Some(t) => {
            let mut url = String::new();
            append_str(&mut url, HTTP_REMOTE_REQUEST);
            append_str(&mut url, t);
            append_str(&mut url, TOKEN_USDT);
            proof {
                assert(url@ =~= HTTP_REMOTE_REQUEST@ + t@ + TOKEN_USDT@);
            }
            Some(url)
        },
    }
}

/// Token information as values.
pub struct TokenInfoView {
    pub name: Seq<u8>,
    pub exchange: Seq<u8>,
    pub price: u32,
}

/// The text of token information: `None` where the name or the exchange is
/// not UTF-8.
pub open spec fn described(info: TokenInfoView) -> Option<Seq<char>> {
    match (utf8_text(info.name), utf8_text(info.exchange)) {
        (Some(n), Some(e)) => Some(
            "{ login: "@ + n + ", blog: "@ + e + ", public_repos: "@ + decimal(info.price as nat)
                + " }"@,
        ),
        _ => None,
    }
}

impl View for TokenInfo {
    type V = TokenInfoView;

    closed spec fn view(&self) -> TokenInfoView {
        TokenInfoView { name: self.name@, exchange: self.exchange@, price: self.price }
    }
}

impl TokenInfo {
    /// Token information with the given fields.
    pub fn new(name: Vec<u8>, exchange: Vec<u8>, price: u32) -> (r: TokenInfo)
        ensures
            r@ == (TokenInfoView { name: name@, exchange: exchange@, price }),
    {
        TokenInfo { name, exchange, price }
    }

    /// The name of the token.
    pub fn name(&self) -> (r: &Vec<u8>)
        ensures
            r@ == self@.name,
    {
        &self.name
    }

    /// The exchange quoting the token.
    pub fn exchange(&self) -> (r: &Vec<u8>)
        ensures
            r@ == self@.exchange,
    {
        &self.exchange
    }

    /// The price of the token.
    pub fn price(&self) -> (r: u32)
        ensures
            r == self@.price,
    {
        self.price
    }

    /// The information as text, `{ login: <name>, blog: <exchange>,
    /// public_repos: <price> }`, or `None` where the name or the exchange is
    /// not UTF-8.
    pub fn describe(&self) -> (r: Option<String>)
        ensures
            r is None <==> described(self@) is None,
            r matches Some(t) ==> described(self@) == Some(t@),
    {
        let name = match text_of(self.name.as_slice()) {
            Some(t) => t,
            None => return None,
        };
        let exchange = match text_of(self.exchange.as_slice()) {
            Some(t) => t,
            None => return None,
        };
        let mut out = String::new();
        append_str(&mut out, "{ login: ");
        append_str(&mut out, name);
        append_str(&mut out, ", blog: ");
        append_str(&mut out, exchange);
        append_str(&mut out, ", public_repos: ");
        push_decimal(&mut out, self.price);
        append_str(&mut out, " }");
        proof {
            assert(out@ =~= "{ login: "@ + name@ + ", blog: "@ + exchange@ + ", public_repos: "@
                + decimal(self.price as nat) + " }"@);
        }
        Some(out)
    }

    fn copy(&self) -> (r: TokenInfo)
        ensures
            r@ == self@,
    {
        TokenInfo { name: self.name.clone(), exchange: self.exchange.clone(), price: self.price }
    }
}

/// A payload signed by an offchain worker: a number and the signer's public key.
#[derive(Clone, PartialEq, Eq)]
pub struct Payload<Public> {
    number: u32,
    public: Public,
}

impl<Public: Clone> Payload<Public> {
    /// A payload of `number` signed with `public`.
    pub fn new(number: u32, public: Public) -> (r: Payload<Public>)
        ensures
            r.spec_number() == number,
            r.spec_public() == public,
    {
        Payload { number, public }
    }

    /// The number carried.
    pub closed spec fn spec_number(&self) -> u32 {
        self.number
    }

    /// The public key of the signer.
    pub closed spec fn spec_public(&self) -> Public {
        self.public
    }

    /// The number carried.
    pub fn number(&self) -> (r: u32)
        ensures
            r == self.spec_number(),
    {
        self.number
    }

    /// The public key of the signer: a clone of it (equal to it wherever the
    /// key type's `clone` copies).
    pub fn public(&self) -> (r: Public)
        ensures
            cloned(self.spec_public(), r),
    {
        self.public.clone()
    }
}

/// The errors of the price-fetching pallet.
#[derive(Clone, Copy, PartialEq, Eq, Debug)]
pub enum Error {
    /// The offchain worker was asked for work it does not know.
    UnknownOffchainMux,
    /// No local account can sign a transaction.
    NoLocalAcctForSigning,
    /// A signed transaction of the offchain worker failed.
    OffchainSignedTxError,
    /// An unsigned transaction of the offchain worker failed.
    OffchainUnsignedTxError,
    /// An unsigned transaction with a signed payload failed.
    OffchainUnsignedTxSignedPayloadError,
    /// Fetching or reading the price information failed.
    HttpFetchingError,
}

/// What the price-fetching pallet reports.
#[derive(Clone, PartialEq, Eq, Debug)]
pub enum Event {
    /// A token name was submitted. (submitter, token name)
    NewTokenName(Option<u64>, Vec<u8>),
}

impl View for Event {
    type V = (Option<u64>, Seq<u8>);

    open spec fn view(&self) -> (Option<u64>, Seq<u8>) {
        match self {
            Event::NewTokenName(who, name) => (*who, name@),
        }
    }
}

/// `s` with `x` added at the end; when `s` already holds `bound` entries the
/// first one is dropped.
pub open spec fn bounded_push<A>(s: Seq<A>, x: A, bound: nat) -> Seq<A> {
    if s.len() == bound {
        s.subrange(1, s.len() as int).push(x)
    } else {
        s.push(x)
    }
}

/// A bounded push keeps the newest entries: the result is the last
/// `min(s.len() + 1, bound)` entries of `s` followed by `x`.
pub proof fn lemma_bounded_push_keeps_newest<A>(s: Seq<A>, x: A, bound: nat)
    requires
        0 < bound,
        s.len() <= bound,
    ensures
        ({
            let t = s.push(x);
            let r = bounded_push(s, x, bound);
            &&& r.len() == if t.len() > bound { bound } else { t.len() }
            &&& r == t.subrange(t.len() - r.len(), t.len() as int)
            &&& r.last() == x
        }),
{
    let t = s.push(x);
    let r = bounded_push(s, x, bound);
    if s.len() == bound {
        assert(r =~= t.subrange(1, t.len() as int));
    } else {
        assert(r =~= t.subrange(0, t.len() as int));
    }
}

/// A stored token name as values.
pub open spec fn name_view(o: Option<Vec<u8>>) -> Option<Seq<u8>> {
    match o {
        Some(v) => Some(v@),
        None => None,
    }
}

/// A stored token information entry as values.
pub open spec fn info_view(o: Option<TokenInfo>) -> Option<TokenInfoView> {
    match o {
        Some(t) => Some(t@),
        None => None,
    }
}

/// A stored information history as values.
pub open spec fn history_view(d: Seq<Option<TokenInfo>>) -> Seq<Option<TokenInfoView>> {
    d.map_values(|o: Option<TokenInfo>| info_view(o))
}

/// The name whose information the pallet records.
pub open spec fn last_token_name() -> Seq<u8> {
    seq![11u8, 22u8, 33u8]
}

/// The state of the price-fetching pallet, as values.
#[verifier::ext_equal]
pub struct OcwView {
    /// The information history of each token name.
    pub token_infos: Map<Seq<u8>, Seq<Option<TokenInfoView>>>,
    /// The submitted token names, oldest first.
    pub token_name_list: Seq<Option<Seq<u8>>>,
    /// The events reported so far.
    pub events: Seq<(Option<u64>, Seq<u8>)>,
}

impl OcwView {
    /// The information history of `name` (empty where none is stored).
    pub open spec fn history(self, name: Seq<u8>) -> Seq<Option<TokenInfoView>> {
        if self.token_infos.contains_key(name) {
            self.token_infos[name]
        } else {
            Seq::empty()
        }
    }

    /// The invariant: the name list holds at most `NUM_VEC_LEN` names, none
    /// of them missing, and each history at most `TOKENINFO_VEC_LEN` entries.
    pub open spec fn wf(self) -> bool {
        &&& self.token_name_list.len() <= NUM_VEC_LEN
        &&& forall|i: int|
            0 <= i < self.token_name_list.len() ==> #[trigger] self.token_name_list[i] is Some
        &&& forall|k: Seq<u8>| #[trigger]
            self.token_infos.contains_key(k) ==> self.token_infos[k].len() <= TOKENINFO_VEC_LEN
    }

    /// The state after `name` is added to the name list.
    pub open spec fn with_token_name(self, name: Seq<u8>) -> OcwView {
        OcwView {
            token_name_list: bounded_push(self.token_name_list, Some(name), NUM_VEC_LEN as nat),
            ..self
        }
    }

    /// The state after `info` is added to the history of `name`.
    pub open spec fn with_token_info(self, name: Seq<u8>, info: TokenInfoView) -> OcwView {
        OcwView {
            token_infos: self.token_infos.insert(
                name,
                bounded_push(self.history(name), Some(info), TOKENINFO_VEC_LEN as nat),
            ),
            ..self
        }
    }

    /// The state after an event is reported.
    pub open spec fn with_event(self, who: Option<u64>, name: Seq<u8>) -> OcwView {
        OcwView { events: self.events.push((who, name)), ..self }
    }
}

/// The storage of the price-fetching pallet.
pub struct Module {
    /// The price history of each token name, as a list of (name, history)
    /// pairs in which no name occurs twice (`distinct_names`); a lookup scans
    /// it for the name.
    token_infos: Vec<(Vec<u8>, VecDeque<Option<TokenInfo>>)>,
    token_name_list: VecDeque<Option<Vec<u8>>>,
    events: Vec<Event>,
}

/// The history stored in `l` under `name`.
pub open spec fn infos_view(l: Seq<(Vec<u8>, VecDeque<Option<TokenInfo>>)>) -> Map<
    Seq<u8>,
    Seq<Option<TokenInfoView>>,
> {
    Map::new(
        |k: Seq<u8>| exists|i: int| 0 <= i < l.len() && #[trigger] l[i].0@ == k,
        |k: Seq<u8>| history_view(l[choose|i: int| 0 <= i < l.len() && #[trigger] l[i].0@ == k].1@),
    )
}

/// No name occurs twice in `l`.
pub open spec fn distinct_names(l: Seq<(Vec<u8>, VecDeque<Option<TokenInfo>>)>) -> bool {
    forall|i: int, j: int|
        0 <= i < l.len() && 0 <= j < l.len() && i != j ==> #[trigger] l[i].0@ != #[trigger] l[j].0@
}

impl View for Module {
    type V = OcwView;

    closed spec fn view(&self) -> OcwView {
        OcwView {
            token_infos: infos_view(self.token_infos@),
            token_name_list: self.token_name_list@.map_values(|o: Option<Vec<u8>>| name_view(o)),
            events: self.events@.map_values(|e: Event| e@),
        }
    }
}

fn bytes_eq(a: &Vec<u8>, b: &Vec<u8>) -> (r: bool)
    ensures
        r == (a@ == b@),
{
    if a.len() != b.len() {
        return false;
    }
    let mut i: usize = 0;
    while i < a.len()
        invariant
            0 <= i <= a.len(),
            a.len() == b.len(),
            forall|j: int| 0 <= j < i ==> a@[j] == b@[j],
        decreases a.len() - i,
    {
        if a[i] != b[i] {
            return false;
        }
        i = i + 1;
    }
    assert(a@ =~= b@);
    true
}

fn copy_bytes(v: &Vec<u8>) -> (r: Vec<u8>)
    ensures
        r@ == v@,
{
    v.clone()
}

/// The name whose information the pallet records.
#[allow(non_snake_case)]
pub fn getLastTokenName() -> (r: Vec<u8>)
    ensures
        r@ == last_token_name(),
{
    let mut r: Vec<u8> = Vec::new();
    r.push(11);
    r.push(22);
    r.push(33);
    assert(r@ =~= last_token_name());
    r
}

impl Module {
    /// The invariant of the storage.
    pub open spec fn wf(&self) -> bool {
        self@.wf() && self.names_distinct()
    }

    /// No name has two stored histories.
    pub closed spec fn names_distinct(&self) -> bool {
        distinct_names(self.token_infos@)
    }

    /// Empty storage.
    pub fn new() -> (r: Module)
        ensures
            r.wf(),
            r@.token_infos == Map::<Seq<u8>, Seq<Option<TokenInfoView>>>::empty(),
            r@.token_name_list == Seq::<Option<Seq<u8>>>::empty(),
            r@.events == Seq::<(Option<u64>, Seq<u8>)>::empty(),
    {
        let r = Module { token_infos: Vec::new(), token_name_list: VecDeque::new(), events: Vec::new() };
        assert(r@.token_infos =~= Map::<Seq<u8>, Seq<Option<TokenInfoView>>>::empty());
        assert(r@.token_name_list =~= Seq::<Option<Seq<u8>>>::empty());
        assert(r@.events =~= Seq::<(Option<u64>, Seq<u8>)>::empty());
        r
    }

    /// The submitted token names, oldest first.
    pub fn token_name_deque(&self) -> (r: VecDeque<Option<Vec<u8>>>)
        ensures
            r@.map_values(|o: Option<Vec<u8>>| name_view(o)) == self@.token_name_list,
    {
        let mut r: VecDeque<Option<Vec<u8>>> = VecDeque::new();
        let mut i: usize = 0;
        while i < self.token_name_list.len()
            invariant
                0 <= i <= self.token_name_list@.len(),
                r@.len() == i,
                forall|j: int|
                    0 <= j < i ==> #[trigger] name_view(r@[j]) == name_view(self.token_name_list@[j]),
            decreases self.token_name_list@.len() - i,
        {
            let entry = match &self.token_name_list[i] {
                Some(v) => Some(copy_bytes(v)),
                None => None,
            };
            r.push_back(entry);
            i = i + 1;
        }
        assert(r@.map_values(|o: Option<Vec<u8>>| name_view(o)) =~= self@.token_name_list);
        r
    }

    /// The information history of `name`; empty where none is stored.
    #[allow(non_snake_case)]
    pub fn token_Infos(&self, name: Vec<u8>) -> (r: VecDeque<Option<TokenInfo>>)
        requires
            self.wf(),
        ensures
            history_view(r@) == self@.history(name@),
    {
        match self.find_infos(&name) {
            Some(idx) => {
                let d = &self.token_infos[idx].1;
                let mut r: VecDeque<Option<TokenInfo>> = VecDeque::new();
                let mut i: usize = 0;
                while i < d.len()
                    invariant
                        0 <= i <= d@.len(),
                        r@.len() == i,
                        forall|j: int| 0 <= j < i ==> #[trigger] info_view(r@[j]) == info_view(d@[j]),
                    decreases d@.len() - i,
                {
                    let entry = match &d[i] {
                        Some(t) => Some(t.copy()),
                        None => None,
                    };
                    r.push_back(entry);
                    i = i + 1;
                }
                proof {
                    self.lemma_history_at(idx as int);
                    assert(history_view(r@) =~= history_view(d@));
                }
                r
            },
            None => {
                let r: VecDeque<Option<TokenInfo>> = VecDeque::new();
                proof {
                    assert(!self@.token_infos.contains_key(name@));
                    assert(history_view(r@) =~= Seq::<Option<TokenInfoView>>::empty());
                }
                r
            },
        }
    }

    /// The events reported so far.
    pub fn events(&self) -> (r: &Vec<Event>)
        ensures
            r@.map_values(|e: Event| e@) == self@.events,
    {
        &self.events
    }

    proof fn lemma_history_at(&self, idx: int)
        requires
            self.names_distinct(),
            0 <= idx < self.token_infos@.len(),
        ensures
            self@.token_infos.contains_key(self.token_infos@[idx].0@),
            self@.token_infos[self.token_infos@[idx].0@] == history_view(self.token_infos@[idx].1@),
    {
        let l = self.token_infos@;
        let k = l[idx].0@;
        assert(exists|i: int| 0 <= i < l.len() && #[trigger] l[i].0@ == k);
        let c = choose|i: int| 0 <= i < l.len() && #[trigger] l[i].0@ == k;
        assert(c == idx);
    }

    fn find_infos(&self, name: &Vec<u8>) -> (r: Option<usize>)
        ensures
            match r {
                Some(i) => i < self.token_infos@.len() && self.token_infos@[i as int].0@ == name@,
                None => !self@.token_infos.contains_key(name@),
            },
    {
        let mut i: usize = 0;
        while i < self.token_infos.len()
            invariant
                0 <= i <= self.token_infos@.len(),
                forall|j: int| 0 <= j < i ==> #[trigger] self.token_infos@[j].0@ != name@,
            decreases self.token_infos@.len() - i,
        {
            if bytes_eq(&self.token_infos[i].0, name) {
                return Some(i);
            }
            i = i + 1;
        }
        None
    }

    /// Adds `token_name` to the name list, dropping the oldest name when the
    /// list already holds `NUM_VEC_LEN` names.
    pub fn append_or_replace_token_name(&mut self, token_name: Vec<u8>)
        ensures
            final(self)@ == old(self)@.with_token_name(token_name@),
            final(self).names_distinct() == old(self).names_distinct(),
            old(self).wf() ==> final(self).wf(),
    {
        let ghost name = token_name@;
        if self.token_name_list.len() == NUM_VEC_LEN {
            let _ = self.token_name_list.pop_front();
        }
        self.token_name_list.push_back(Some(token_name));
        proof {
            let exp = old(self)@.with_token_name(name);
            assert(self@.token_name_list =~= exp.token_name_list);
            assert(self@ =~= exp);
        }
    }

    /// Submits a token name signed by the caller and reports it.
    pub fn submit_token_name_signed(&mut self, origin: Origin, token_name: Vec<u8>) -> (r:
        DispatchResult<Error>)
        requires
            old(self).wf(),
        ensures
            final(self).wf(),
            match signer_of::<Error>(origin) {
                Err(e) => r == Err::<(), DispatchError<Error>>(e) && final(self)@ == old(self)@,
                Ok(who) => r == Ok::<(), DispatchError<Error>>(()) && final(self)@ == old(
                    self,
                )@.with_token_name(token_name@).with_event(Some(who), token_name@),
            },
    {
        let who = ensure_signed(origin)?;
        let reported = copy_bytes(&token_name);
        self.append_or_replace_token_name(token_name);
        self.events.push(Event::NewTokenName(Some(who), reported));
        proof {
            let exp = old(self)@.with_token_name(reported@).with_event(Some(who), reported@);
            assert(self@.events =~= exp.events);
            assert(self@ =~= exp);
        }
        Ok(())
    }

    /// Adds `token_info`, sent by a signed caller, to the history of the
    /// last token name, dropping the oldest entry when the history already
    /// holds `TOKENINFO_VEC_LEN` entries, and reports the information's name.
    pub fn update_token_info(&mut self, origin: Origin, token_info: TokenInfo) -> (r: DispatchResult<
        Error,
    >)
        requires
            old(self).wf(),
        ensures
            final(self).wf(),
            match signer_of::<Error>(origin) {
                Err(e) => r == Err::<(), DispatchError<Error>>(e) && final(self)@ == old(self)@,
                Ok(sender) => r == Ok::<(), DispatchError<Error>>(()) && final(self)@ == old(
                    self,
                )@.with_token_info(last_token_name(), token_info@).with_event(
                    Some(sender),
                    token_info@.name,
                ),
            },
    {
        let sender = ensure_signed(origin)?;
        let ghost old_v = self@;
        let ghost info = token_info@;
        let key = getLastTokenName();
        let reported = copy_bytes(&token_info.name);
        match self.find_infos(&key) {
            Some(idx) => {
                proof {
                    self.lemma_history_at(idx as int);
                }
                let ghost old_l = self.token_infos@;
                let (k, mut d) = self.token_infos.remove(idx);
                let ghost old_d = d@;
                if d.len() == TOKENINFO_VEC_LEN {
                    let _ = d.pop_front();
                }
                d.push_back(Some(token_info));
                let ghost new_d = d@;
                self.token_infos.insert(idx, (k, d));
                proof {
                    let l = self.token_infos@;
                    assert(l =~= old_l.update(idx as int, l[idx as int]));
                    assert(history_view(new_d) =~= bounded_push(
                        history_view(old_d),
                        Some(info),
                        TOKENINFO_VEC_LEN as nat,
                    ));
                    assert(distinct_names(l)) by {
                        assert forall|i: int, j: int|
                            0 <= i < l.len() && 0 <= j < l.len() && i != j implies #[trigger] l[i].0@
                            != #[trigger] l[j].0@ by {
                            assert(old_l[i].0@ != old_l[j].0@);
                        }
                    }
                    self.lemma_history_at(idx as int);
                    let exp = old_v.with_token_info(last_token_name(), info);
                    assert forall|nm: Seq<u8>| #[trigger] self@.token_infos.contains_key(nm)
                        == exp.token_infos.contains_key(nm) && (exp.token_infos.contains_key(nm)
                        ==> self@.token_infos[nm] == exp.token_infos[nm]) by {
                        if nm != last_token_name() {
                            if old_v.token_infos.contains_key(nm) {
                                let c = choose|i: int|
                                    0 <= i < old_l.len() && #[trigger] old_l[i].0@ == nm;
                                self.lemma_history_at(c);
                                assert(l[c].0@ == nm);
                            }
                            if self@.token_infos.contains_key(nm) {
                                let c = choose|i: int| 0 <= i < l.len() && #[trigger] l[i].0@ == nm;
                                assert(c != idx);
                                assert(old_l[c].0@ == nm);
                                self.lemma_history_at(c);
                            }
                        }
                    }
                    assert(self@.token_infos =~= exp.token_infos);
                }
            },
            None => {
                let ghost old_l = self.token_infos@;
                let mut d: VecDeque<Option<TokenInfo>> = VecDeque::new();
                d.push_back(Some(token_info));
                let ghost new_d = d@;
                self.token_infos.push((key, d));
                proof {
                    let l = self.token_infos@;
                    let last = (l.len() - 1) as int;
                    assert(forall|i: int| 0 <= i < old_l.len() ==> #[trigger] l[i] == old_l[i]);
                    assert(forall|i: int| 0 <= i < old_l.len() ==> #[trigger] old_l[i].0@ != last_token_name());
                    assert(distinct_names(l)) by {
                        assert forall|i: int, j: int|
                            0 <= i < l.len() && 0 <= j < l.len() && i != j implies #[trigger] l[i].0@
                            != #[trigger] l[j].0@ by {
                            if i < last && j < last {
                                assert(old_l[i].0@ != old_l[j].0@);
                            }
                        }
                    }
                    assert(history_view(new_d) =~= bounded_push(
                        Seq::<Option<TokenInfoView>>::empty(),
                        Some(info),
                        TOKENINFO_VEC_LEN as nat,
                    ));
                    self.lemma_history_at(last);
                    let exp = old_v.with_token_info(last_token_name(), info);
                    assert forall|nm: Seq<u8>| #[trigger] self@.token_infos.contains_key(nm)
                        == exp.token_infos.contains_key(nm) && (exp.token_infos.contains_key(nm)
                        ==> self@.token_infos[nm] == exp.token_infos[nm]) by {
                        if nm != last_token_name() {
                            if old_v.token_infos.contains_key(nm) {
                                let c = choose|i: int|
                                    0 <= i < old_l.len() && #[trigger] old_l[i].0@ == nm;
                                assert(l[c].0@ == nm);
                                self.lemma_history_at(c);
                            }
                            if self@.token_infos.contains_key(nm) {
                                let c = choose|i: int| 0 <= i < l.len() && #[trigger] l[i].0@ == nm;
                                assert(c != last);
                                assert(old_l[c].0@ == nm);
                                self.lemma_history_at(c);
                            }
                        }
                    }
                    assert(self@.token_infos =~= exp.token_infos);
                }
            },
        }
        self.events.push(Event::NewTokenName(Some(sender), reported));
        proof {
            let exp = old_v.with_token_info(last_token_name(), info).with_event(Some(sender), info.name);
            assert(self@.events =~= exp.events);
            assert(self@ =~= exp);
        }
        Ok(())
    }

    /// The token name the offchain worker submits: the newest in the list,
    /// or `None` where the list is empty and nothing is to be submitted.
    pub fn token_name_to_submit(&self) -> (r: Option<Vec<u8>>)
        requires
            self.wf(),
        ensures
            r is None <==> self@.token_name_list.len() == 0,
            r matches Some(v) ==> Some(v@) == self@.token_name_list.last(),
    {
        let len = self.token_name_list.len();
        if len == 0 {
            return None;
        }
        let last = len - 1;
        proof {
            assert(self@.token_name_list[last as int] is Some);
        }
        match &self.token_name_list[last] {
            Some(v) => Some(copy_bytes(v)),
            None => None,
        }
    }
}

/// The work the offchain worker does in a block.
#[derive(Clone, Copy, PartialEq, Eq, Debug)]
pub enum OffchainTask {
    /// Fetch the token information and submit the newest token name in a
    /// signed transaction.
    CollectSignedTokenInfo,
}

/// The kind of work for block `block_number`: the block number modulo
/// `TX_TYPES`, or `TX_TYPES` where the block number does not fit in a `u32`.
pub open spec fn offchain_mux(block_number: u64) -> u32 {
    if block_number <= u32::MAX {
        (block_number % TX_TYPES as u64) as u32
    } else {
        TX_TYPES
    }
}

/// The offchain worker collects in every fourth block, counting from block
/// 0, and in no other block; a block number beyond `u32` is never collected in.
pub proof fn lemma_collects_every_fourth_block(block_number: u64)
    ensures
        block_number <= u32::MAX ==> (offchain_mux(block_number) == 0 <==> block_number % 4 == 0),
        block_number > u32::MAX ==> offchain_mux(block_number) != 0,
{
}

/// The work of the offchain worker in block `block_number`: collection in
/// kind 0, `UnknownOffchainMux` otherwise.
pub fn offchain_task(block_number: u64) -> (r: Result<OffchainTask, Error>)
    ensures
        r == if offchain_mux(block_number) == 0 {
            Ok::<OffchainTask, Error>(OffchainTask::CollectSignedTokenInfo)
        } else {
            Err::<OffchainTask, Error>(Error::UnknownOffchainMux)
        },
{
    let modu: u32 = if block_number <= u32::MAX as u64 {
        (block_number % TX_TYPES as u64) as u32
    } else {
        TX_TYPES
    };
    if modu == 0 {
        Ok(OffchainTask::CollectSignedTokenInfo)
    } else {
        Err(Error::UnknownOffchainMux)
    }
}

/// Checks the status code of a price response: only 200 is accepted.
pub fn check_response_code(code: u16) -> (r: Result<(), Error>)
    ensures
        r == if code == 200 {
            Ok::<(), Error>(())
        } else {
            Err::<(), Error>(Error::HttpFetchingError)
        },
{
    if code != 200 {
        return Err(Error::HttpFetchingError);
    }
    Ok(())
}

/// The outcome of the signed transaction of the offchain worker: `None`
/// where no account could send it, else whether it was accepted.
pub fn signed_tx_outcome(sent: Option<bool>) -> (r: Result<(), Error>)
    ensures
        r == match sent {
            None => Err::<(), Error>(Error::NoLocalAcctForSigning),
            Some(false) => Err::<(), Error>(Error::OffchainSignedTxError),
            Some(true) => Ok::<(), Error>(()),
        },
{
    match sent {
        Some(accepted) => {
            if !accepted {
                return Err(Error::OffchainSignedTxError);
            }
            Ok(())
        },
        None => Err(Error::NoLocalAcctForSigning),
    }
}

/// The outcome of the offchain collection: `None` where there was no token
/// name to submit and nothing was sent, which succeeds; else the outcome of
/// the signed transaction that submitted it.
pub fn collection_outcome(sent: Option<Option<bool>>) -> (r: Result<(), Error>)
    ensures
        r == match sent {
            None => Ok::<(), Error>(()),
            Some(s) => match s {
                None => Err::<(), Error>(Error::NoLocalAcctForSigning),
                Some(false) => Err::<(), Error>(Error::OffchainSignedTxError),
                Some(true) => Ok::<(), Error>(()),
            },
        },
{
    match sent {
        None => Ok(()),
        Some(s) => signed_tx_outcome(s),
    }
}

/// A step of fetching the token information into offchain storage.
#[derive(Clone, Copy, PartialEq, Eq, Debug)]
pub enum FetchEvent {
    /// The fetch begins.
    Started,
    /// The offchain cache was read; whether it held token information.
    CacheRead(bool),
    /// The fetch lock was tried; whether it was acquired.
    LockTried(bool),
    /// The information was fetched and parsed, or not.
    Fetched(Result<(), Error>),
    /// The fetched information was stored in the cache.
    Stored,
}

/// What to do next when fetching the token information.
#[derive(Clone, Copy, PartialEq, Eq, Debug)]
pub enum FetchAction {
    ReadCache,
    TryLock,
    FetchAndParse,
    StoreInCache,
    Finish(Result<(), Error>),
}

/// The next action of a fetch after `event`: a cached entry ends it, as does
/// a lock held by another run; otherwise the information is fetched and,
/// where that succeeds, stored, and where it fails the failure is returned.
pub open spec fn fetch_next(event: FetchEvent) -> FetchAction {
    match event {
        FetchEvent::Started => FetchAction::ReadCache,
        FetchEvent::CacheRead(cached) => if cached {
            FetchAction::Finish(Ok(()))
        } else {
            FetchAction::TryLock
        },
        FetchEvent::LockTried(acquired) => if acquired {
            FetchAction::FetchAndParse
        } else {
            FetchAction::Finish(Ok(()))
        },
        FetchEvent::Fetched(result) => match result {
            Ok(()) => FetchAction::StoreInCache,
            Err(e) => FetchAction::Finish(Err(e)),
        },
        FetchEvent::Stored => FetchAction::Finish(Ok(())),
    }
}

/// Decides the next action of a fetch of the token information.
pub fn fetch_token_info_step(event: FetchEvent) -> (r: FetchAction)
    ensures
        r == fetch_next(event),
{
    match event {
        FetchEvent::Started => FetchAction::ReadCache,
        FetchEvent::CacheRead(cached) => {
            if cached {
                return FetchAction::Finish(Ok(()));
            }
            FetchAction::TryLock
        },
        FetchEvent::LockTried(acquired) => {
            if acquired {
                FetchAction::FetchAndParse
            } else {
                FetchAction::Finish(Ok(()))
            }
        },
        FetchEvent::Fetched(result) => match result {
            Ok(()) => FetchAction::StoreInCache,
            Err(e) => FetchAction::Finish(Err(e)),
        },
        FetchEvent::Stored => FetchAction::Finish(Ok(())),
    }
}

} // verus!
