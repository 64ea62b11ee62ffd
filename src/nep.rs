//! Standard event logs: lines `EVENT_JSON:{...}` that NEP-141 (fungible) and
//! NEP-171 (non-fungible) contracts emit.

use vstd::prelude::*;
use crate::amount::{decimal_value, is_canonical_decimal, Amount};
use crate::event::{copy_text, Cause, NftEventRow, StatusLabel, TokenEvent};
use crate::index::{compose_db_index, event_index, EventKind};
use crate::outside::{
    escaped,
    json_elements,
    json_elements_of,
    json_field,
    json_field_of,
    json_text,
    json_text_of,
    opt_view,
    strip_prefix,
    trim_text,
    trimmed,
};
use crate::token::{
    all_wf,
    event_view,
    event_views,
    escape_memo,
    push_event,
    push_transfer,
    rollback,
    transfer_views,
    EventContext,
    TokenEventView,
};

verus! {

pub open spec fn utf8(s: Seq<char>) -> Seq<u8> {
    vstd::utf8::encode_utf8(s)
}

/// The JSON that a log line carries after the `EVENT_JSON:` sentinel.
pub open spec fn log_payload(log: Seq<char>) -> Option<Seq<char>> {
    let t = trimmed(log);
    let p = "EVENT_JSON:"@;
    if p.len() <= t.len() && t.subrange(0, p.len() as int) == p {
        Some(trimmed(t.subrange(p.len() as int, t.len() as int)))
    } else {
        None
    }
}

pub open spec fn log_payloads(logs: Seq<String>) -> Seq<Seq<char>>
    decreases logs.len(),
{
    if logs.len() == 0 {
        Seq::empty()
    } else {
        match log_payload(logs.last()@) {
            Some(p) => log_payloads(logs.drop_last()).push(p),
            None => log_payloads(logs.drop_last()),
        }
    }
}

pub open spec fn str_views(s: Seq<&str>) -> Seq<Seq<char>> {
    s.map_values(|t: &str| t@)
}

/// The payloads of the standard event lines among `logs`, in order.
pub fn event_payloads(logs: &Vec<String>) -> (r: Vec<&str>)
    ensures
        str_views(r@) == log_payloads(logs@),
{
    let mut out: Vec<&str> = Vec::new();
    let mut i: usize = 0;
    assert(logs@.take(0) =~= Seq::<String>::empty());
    assert(str_views(out@) =~= Seq::<Seq<char>>::empty());
    while i < logs.len()
        invariant
            i <= logs@.len(),
            str_views(out@) == log_payloads(logs@.take(i as int)),
        decreases logs@.len() - i,
    {
        assert(logs@.take(i + 1).drop_last() =~= logs@.take(i as int));
        assert(logs@.take(i + 1).last() == logs@[i as int]);
        let t = trim_text(logs[i].as_str());
        match strip_prefix(t, "EVENT_JSON:") {
            Some(rest) => {
                let p = trim_text(rest);
                let ghost before = out@;
                out.push(p);
                assert(str_views(out@) =~= str_views(before).push(p@));
            },
            None => {},
        }
        i = i + 1;
    }
    assert(logs@.take(i as int) =~= logs@);
    out
}

pub open spec fn text_field(doc: Seq<u8>, key: Seq<char>) -> Option<Seq<char>> {
    match json_field_of(doc, key) {
        Some(f) => json_text_of(f),
        None => None,
    }
}

/// The text of a string (or number) field of a JSON object.
pub fn read_text_field(doc: &[u8], key: &str) -> (r: Option<String>)
    ensures
        opt_view(r) == text_field(doc@, key@),
{
    match json_field(doc, key) {
        Some(f) => json_text(f.as_slice()),
        None => None,
    }
}

pub fn text_is(s: &String, lit: &str) -> (r: bool)
    ensures
        r == (s@ == lit@),
{
    let l: String = lit.to_owned();
    *s == l
}

/// One record of a fungible-token event. For a transfer, `owner_id` is the
/// sender and `new_owner_id` the receiver.
#[derive(Debug)]
pub struct FtItem {
    pub owner_id: String,
    pub new_owner_id: Option<String>,
    pub amount: String,
    pub memo: Option<String>,
}

pub struct FtItemView {
    pub owner_id: Seq<char>,
    pub new_owner_id: Option<Seq<char>>,
    pub amount: Seq<char>,
    pub memo: Option<Seq<char>>,
}

impl View for FtItem {
    type V = FtItemView;

    open spec fn view(&self) -> FtItemView {
        FtItemView {
            owner_id: self.owner_id@,
            new_owner_id: opt_view(self.new_owner_id),
            amount: self.amount@,
            memo: opt_view(self.memo),
        }
    }
}

/// One record of a non-fungible-token event. For a transfer, `owner_id` is
/// the old owner and `new_owner_id` the new one.
#[derive(Debug)]
pub struct NftItem {
    pub owner_id: String,
    pub new_owner_id: Option<String>,
    pub token_ids: Vec<String>,
    pub authorized_id: Option<String>,
    pub memo: Option<String>,
}

pub struct NftItemView {
    pub owner_id: Seq<char>,
    pub new_owner_id: Option<Seq<char>>,
    pub token_ids: Seq<Seq<char>>,
    pub authorized_id: Option<Seq<char>>,
    pub memo: Option<Seq<char>>,
}

pub open spec fn string_views(s: Seq<String>) -> Seq<Seq<char>> {
    s.map_values(|t: String| t@)
}

impl View for NftItem {
    type V = NftItemView;

    open spec fn view(&self) -> NftItemView {
        NftItemView {
            owner_id: self.owner_id@,
            new_owner_id: opt_view(self.new_owner_id),
            token_ids: string_views(self.token_ids@),
            authorized_id: opt_view(self.authorized_id),
            memo: opt_view(self.memo),
        }
    }
}

/// A decoded standard event.
#[derive(Debug)]
pub enum StandardEvent {
    Ft(Cause, Vec<FtItem>),
    Nft(Cause, Vec<NftItem>),
}

pub enum StandardEventView {
    Ft(Cause, Seq<FtItemView>),
    Nft(Cause, Seq<NftItemView>),
}

impl View for StandardEvent {
    type V = StandardEventView;

    open spec fn view(&self) -> StandardEventView {
        match self {
            StandardEvent::Ft(c, items) => StandardEventView::Ft(*c, items@.map_values(|i: FtItem| i@)),
            StandardEvent::Nft(c, items) => StandardEventView::Nft(
                *c,
                items@.map_values(|i: NftItem| i@),
            ),
        }
    }
}

/// The owner field of a record: the sender for a transfer.
pub open spec fn owner_key(cause: Cause) -> Seq<char> {
    if cause == Cause::Transfer {
        "old_owner_id"@
    } else {
        "owner_id"@
    }
}

pub open spec fn ft_item_of(doc: Seq<u8>, cause: Cause) -> Option<FtItemView> {
    let owner = text_field(doc, owner_key(cause));
    let receiver = text_field(doc, "new_owner_id"@);
    let amount = text_field(doc, "amount"@);
    if owner is None || amount is None || (cause == Cause::Transfer && receiver is None) {
        None
    } else {
        Some(
            FtItemView {
                owner_id: owner->0,
                new_owner_id: if cause == Cause::Transfer {
                    receiver
                } else {
                    None
                },
                amount: amount->0,
                memo: text_field(doc, "memo"@),
            },
        )
    }
}

pub open spec fn ft_items_of(docs: Seq<Seq<u8>>, cause: Cause) -> Option<Seq<FtItemView>>
    decreases docs.len(),
{
    if docs.len() == 0 {
        Some(Seq::empty())
    } else {
        match (ft_items_of(docs.drop_last(), cause), ft_item_of(docs.last(), cause)) {
            (Some(a), Some(b)) => Some(a.push(b)),
            _ => None,
        }
    }
}

pub open spec fn texts_of(docs: Seq<Seq<u8>>) -> Option<Seq<Seq<char>>>
    decreases docs.len(),
{
    if docs.len() == 0 {
        Some(Seq::empty())
    } else {
        match (texts_of(docs.drop_last()), json_text_of(docs.last())) {
            (Some(a), Some(b)) => Some(a.push(b)),
            _ => None,
        }
    }
}

pub open spec fn token_ids_of(doc: Seq<u8>) -> Option<Seq<Seq<char>>> {
    match json_field_of(doc, "token_ids"@) {
        Some(f) => match json_elements_of(f) {
            Some(es) => texts_of(es),
            None => None,
        },
        None => None,
    }
}

pub open spec fn nft_item_of(doc: Seq<u8>, cause: Cause) -> Option<NftItemView> {
    let owner = text_field(doc, owner_key(cause));
    let receiver = text_field(doc, "new_owner_id"@);
    let tokens = token_ids_of(doc);
    if owner is None || tokens is None || (cause == Cause::Transfer && receiver is None) {
        None
    } else {
        Some(
            NftItemView {
                owner_id: owner->0,
                new_owner_id: if cause == Cause::Transfer {
                    receiver
                } else {
                    None
                },
                token_ids: tokens->0,
                authorized_id: if cause == Cause::Mint {
                    None
                } else {
                    text_field(doc, "authorized_id"@)
                },
                memo: text_field(doc, "memo"@),
            },
        )
    }
}

pub open spec fn nft_items_of(docs: Seq<Seq<u8>>, cause: Cause) -> Option<Seq<NftItemView>>
    decreases docs.len(),
{
    if docs.len() == 0 {
        Some(Seq::empty())
    } else {
        match (nft_items_of(docs.drop_last(), cause), nft_item_of(docs.last(), cause)) {
            (Some(a), Some(b)) => Some(a.push(b)),
            _ => None,
        }
    }
}

pub open spec fn data_of(doc: Seq<u8>) -> Option<Seq<Seq<u8>>> {
    match json_field_of(doc, "data"@) {
        Some(f) => json_elements_of(f),
        None => None,
    }
}

pub open spec fn event_cause(name: Seq<char>, family: Seq<char>) -> Option<Cause> {
    if name == family + "_mint"@ {
        Some(Cause::Mint)
    } else if name == family + "_transfer"@ {
        Some(Cause::Transfer)
    } else if name == family + "_burn"@ {
        Some(Cause::Burn)
    } else {
        None
    }
}

/// The standard event a payload encodes; `None` for anything else.
pub open spec fn standard_event_of(doc: Seq<u8>) -> Option<StandardEventView> {
    let standard = text_field(doc, "standard"@);
    let name = text_field(doc, "event"@);
    let data = data_of(doc);
    if standard is None || name is None || data is None {
        None
    } else if standard->0 == "nep141"@ {
        match event_cause(name->0, "ft"@) {
            Some(c) => match ft_items_of(data->0, c) {
                Some(items) => Some(StandardEventView::Ft(c, items)),
                None => None,
            },
            None => None,
        }
    } else if standard->0 == "nep171"@ {
        match event_cause(name->0, "nft"@) {
            Some(c) => match nft_items_of(data->0, c) {
                Some(items) => Some(StandardEventView::Nft(c, items)),
                None => None,
            },
            None => None,
        }
    } else {
        None
    }
}

fn read_cause(name: &String, mint: &str, transfer: &str, burn: &str) -> (r: Option<Cause>)
    ensures
        r == (if name@ == mint@ {
            Some(Cause::Mint)
        } else if name@ == transfer@ {
            Some(Cause::Transfer)
        } else if name@ == burn@ {
            Some(Cause::Burn)
        } else {
            None
        }),
{
    if text_is(name, mint) {
        Some(Cause::Mint)
    } else if text_is(name, transfer) {
        Some(Cause::Transfer)
    } else if text_is(name, burn) {
        Some(Cause::Burn)
    } else {
        None
    }
}

fn owner_field(cause: Cause) -> (r: &'static str)
    ensures
        r@ == owner_key(cause),
{
    if cause == Cause::Transfer {
        "old_owner_id"
    } else {
        "owner_id"
    }
}

fn read_ft_item(doc: &[u8], cause: Cause) -> (r: Option<FtItem>)
    ensures
        r is None <==> ft_item_of(doc@, cause) is None,
        r matches Some(it) ==> ft_item_of(doc@, cause) == Some(it@),
{
    let owner = read_text_field(doc, owner_field(cause));
    let receiver = read_text_field(doc, "new_owner_id");
    let amount = read_text_field(doc, "amount");
    let memo = read_text_field(doc, "memo");
    match (owner, amount) {
        (Some(o), Some(a)) => {
            if cause == Cause::Transfer {
                match receiver {
                    Some(n) => Some(FtItem { owner_id: o, new_owner_id: Some(n), amount: a, memo }),
                    None => None,
                }
            } else {
                Some(FtItem { owner_id: o, new_owner_id: None, amount: a, memo })
            }
        },
        _ => None,
    }
}

fn read_ft_items(docs: &Vec<Vec<u8>>, cause: Cause) -> (r: Option<Vec<FtItem>>)
    ensures
        r is None <==> ft_items_of(crate::outside::bytes_views(docs@), cause) is None,
        r matches Some(v) ==> ft_items_of(crate::outside::bytes_views(docs@), cause) == Some(
            v@.map_values(|i: FtItem| i@),
        ),
{
    let ghost ds = crate::outside::bytes_views(docs@);
    let mut out: Vec<FtItem> = Vec::new();
    let mut i: usize = 0;
    assert(ds.take(0) =~= Seq::<Seq<u8>>::empty());
    assert(out@.map_values(|i: FtItem| i@) =~= Seq::<FtItemView>::empty());
    while i < docs.len()
        invariant
            ds == crate::outside::bytes_views(docs@),
            i <= docs@.len(),
            ft_items_of(ds.take(i as int), cause) == Some(out@.map_values(|i: FtItem| i@)),
        decreases docs@.len() - i,
    {
        assert(ds.take(i + 1).drop_last() =~= ds.take(i as int));
        assert(ds.take(i + 1).last() == docs@[i as int]@);
        match read_ft_item(docs[i].as_slice(), cause) {
            Some(it) => {
                let ghost before = out@;
                out.push(it);
                assert(out@.map_values(|i: FtItem| i@) =~= before.map_values(|i: FtItem| i@).push(it@));
            },
            None => {
                proof {
                    lemma_ft_items_stuck(ds, i as int, cause);
                }
                return None;
            },
        }
        i = i + 1;
    }
    assert(ds.take(i as int) =~= ds);
    Some(out)
}

proof fn lemma_ft_items_stuck(ds: Seq<Seq<u8>>, i: int, cause: Cause)
    requires
        0 <= i < ds.len(),
        ft_items_of(ds.take(i + 1), cause) is None,
    ensures
        ft_items_of(ds, cause) is None,
    decreases ds.len() - i,
{
    if i + 1 < ds.len() {
        assert(ds.take(i + 2).drop_last() =~= ds.take(i + 1));
        lemma_ft_items_stuck(ds, i + 1, cause);
    } else {
        assert(ds.take(i + 1) =~= ds);
    }
}

fn read_texts(docs: &Vec<Vec<u8>>) -> (r: Option<Vec<String>>)
    ensures
        r is None <==> texts_of(crate::outside::bytes_views(docs@)) is None,
        r matches Some(v) ==> texts_of(crate::outside::bytes_views(docs@)) == Some(string_views(v@)),
{
    let ghost ds = crate::outside::bytes_views(docs@);
    let mut out: Vec<String> = Vec::new();
    let mut i: usize = 0;
    assert(ds.take(0) =~= Seq::<Seq<u8>>::empty());
    assert(string_views(out@) =~= Seq::<Seq<char>>::empty());
    while i < docs.len()
        invariant
            ds == crate::outside::bytes_views(docs@),
            i <= docs@.len(),
            texts_of(ds.take(i as int)) == Some(string_views(out@)),
        decreases docs@.len() - i,
    {
        assert(ds.take(i + 1).drop_last() =~= ds.take(i as int));
        assert(ds.take(i + 1).last() == docs@[i as int]@);
        match json_text(docs[i].as_slice()) {
            Some(t) => {
                let ghost before = out@;
                out.push(t);
                assert(string_views(out@) =~= string_views(before).push(t@));
            },
            None => {
                proof {
                    lemma_texts_stuck(ds, i as int);
                }
                return None;
            },
        }
        i = i + 1;
    }
    assert(ds.take(i as int) =~= ds);
    Some(out)
}

proof fn lemma_texts_stuck(ds: Seq<Seq<u8>>, i: int)
    requires
        0 <= i < ds.len(),
        texts_of(ds.take(i + 1)) is None,
    ensures
        texts_of(ds) is None,
    decreases ds.len() - i,
{
    if i + 1 < ds.len() {
        assert(ds.take(i + 2).drop_last() =~= ds.take(i + 1));
        lemma_texts_stuck(ds, i + 1);
    } else {
        assert(ds.take(i + 1) =~= ds);
    }
}

fn read_token_ids(doc: &[u8]) -> (r: Option<Vec<String>>)
    ensures
        r is None <==> token_ids_of(doc@) is None,
        r matches Some(v) ==> token_ids_of(doc@) == Some(string_views(v@)),
{
    match json_field(doc, "token_ids") {
        Some(f) => match json_elements(f.as_slice()) {
            Some(es) => read_texts(&es),
            None => None,
        },
        None => None,
    }
}

fn read_nft_item(doc: &[u8], cause: Cause) -> (r: Option<NftItem>)
    ensures
        r is None <==> nft_item_of(doc@, cause) is None,
        r matches Some(it) ==> nft_item_of(doc@, cause) == Some(it@),
{
    let owner = read_text_field(doc, owner_field(cause));
    let receiver = read_text_field(doc, "new_owner_id");
    let tokens = read_token_ids(doc);
    let authorized = if cause == Cause::Mint {
        None
    } else {
        read_text_field(doc, "authorized_id")
    };
    let memo = read_text_field(doc, "memo");
    match (owner, tokens) {
        (Some(o), Some(t)) => {
            if cause == Cause::Transfer {
                match receiver {
                    Some(n) => Some(
                        NftItem {
                            owner_id: o,
                            new_owner_id: Some(n),
                            token_ids: t,
                            authorized_id: authorized,
                            memo,
                        },
                    ),
                    None => None,
                }
            } else {
                Some(NftItem { owner_id: o, new_owner_id: None, token_ids: t, authorized_id: authorized, memo })
            }
        },
        _ => None,
    }
}

fn read_nft_items(docs: &Vec<Vec<u8>>, cause: Cause) -> (r: Option<Vec<NftItem>>)
    ensures
        r is None <==> nft_items_of(crate::outside::bytes_views(docs@), cause) is None,
        r matches Some(v) ==> nft_items_of(crate::outside::bytes_views(docs@), cause) == Some(
            v@.map_values(|i: NftItem| i@),
        ),
{
    let ghost ds = crate::outside::bytes_views(docs@);
    let mut out: Vec<NftItem> = Vec::new();
    let mut i: usize = 0;
    assert(ds.take(0) =~= Seq::<Seq<u8>>::empty());
    assert(out@.map_values(|i: NftItem| i@) =~= Seq::<NftItemView>::empty());
    while i < docs.len()
        invariant
            ds == crate::outside::bytes_views(docs@),
            i <= docs@.len(),
            nft_items_of(ds.take(i as int), cause) == Some(out@.map_values(|i: NftItem| i@)),
        decreases docs@.len() - i,
    {
        assert(ds.take(i + 1).drop_last() =~= ds.take(i as int));
        assert(ds.take(i + 1).last() == docs@[i as int]@);
        match read_nft_item(docs[i].as_slice(), cause) {
            Some(it) => {
                let ghost before = out@;
                out.push(it);
                assert(out@.map_values(|i: NftItem| i@) =~= before.map_values(|i: NftItem| i@).push(it@));
            },
            None => {
                proof {
                    lemma_nft_items_stuck(ds, i as int, cause);
                }
                return None;
            },
        }
        i = i + 1;
    }
    assert(ds.take(i as int) =~= ds);
    Some(out)
}

proof fn lemma_nft_items_stuck(ds: Seq<Seq<u8>>, i: int, cause: Cause)
    requires
        0 <= i < ds.len(),
        nft_items_of(ds.take(i + 1), cause) is None,
    ensures
        nft_items_of(ds, cause) is None,
    decreases ds.len() - i,
{
    if i + 1 < ds.len() {
        assert(ds.take(i + 2).drop_last() =~= ds.take(i + 1));
        lemma_nft_items_stuck(ds, i + 1, cause);
    } else {
        assert(ds.take(i + 1) =~= ds);
    }
}

/// Decodes the payload of a standard event line; `None` when it is not a
/// NEP-141 or NEP-171 event this library knows.
pub fn read_standard_event(doc: &[u8]) -> (r: Option<StandardEvent>)
    ensures
        r is None <==> standard_event_of(doc@) is None,
        r matches Some(e) ==> standard_event_of(doc@) == Some(e@),
{
    let standard = read_text_field(doc, "standard");
    let name = read_text_field(doc, "event");
    let data = match json_field(doc, "data") {
        Some(f) => json_elements(f.as_slice()),
        None => None,
    };
    match (standard, name, data) {
        (Some(st), Some(nm), Some(d)) => {
            if text_is(&st, "nep141") {
                proof {
                    assert("ft"@ + "_mint"@ == "ft_mint"@) by { reveal_strlit("ft"); reveal_strlit("_mint"); reveal_strlit("ft_mint"); }
                    assert("ft"@ + "_transfer"@ == "ft_transfer"@) by { reveal_strlit("ft"); reveal_strlit("_transfer"); reveal_strlit("ft_transfer"); }
                    assert("ft"@ + "_burn"@ == "ft_burn"@) by { reveal_strlit("ft"); reveal_strlit("_burn"); reveal_strlit("ft_burn"); }
                }
                match read_cause(&nm, "ft_mint", "ft_transfer", "ft_burn") {
                    Some(c) => match read_ft_items(&d, c) {
                        Some(items) => Some(StandardEvent::Ft(c, items)),
                        None => None,
                    },
                    None => None,
                }
            } else if text_is(&st, "nep171") {
                proof {
                    assert("nft"@ + "_mint"@ == "nft_mint"@) by { reveal_strlit("nft"); reveal_strlit("_mint"); reveal_strlit("nft_mint"); }
                    assert("nft"@ + "_transfer"@ == "nft_transfer"@) by { reveal_strlit("nft"); reveal_strlit("_transfer"); reveal_strlit("nft_transfer"); }
                    assert("nft"@ + "_burn"@ == "nft_burn"@) by { reveal_strlit("nft"); reveal_strlit("_burn"); reveal_strlit("nft_burn"); }
                }
                match read_cause(&nm, "nft_mint", "nft_transfer", "nft_burn") {
                    Some(c) => match read_nft_items(&d, c) {
                        Some(items) => Some(StandardEvent::Nft(c, items)),
                        None => None,
                    },
                    None => None,
                }
            } else {
                None
            }
        },
        _ => None,
    }
}

/// Why a block's receipts could not be decoded.
#[derive(Clone, Copy, Debug, PartialEq, Eq, Structural)]
pub enum DecodeError {
    /// An amount is not a decimal integer.
    BadAmount,
    /// The arguments of a call that succeeded could not be read.
    BadArguments,
    /// A call's arguments are not base64.
    BadBase64,
}

pub open spec fn escaped_opt(m: Option<Seq<char>>) -> Option<Seq<char>> {
    match m {
        Some(x) => Some(escaped(x)),
        None => None,
    }
}

/// The balance changes one record of a NEP-141 event makes; `None` when its
/// amount is not a decimal integer. A mint of "0" makes none.
pub open spec fn ft_item_events(ctx: EventContext, cause: Cause, it: FtItemView) -> Option<Seq<TokenEventView>> {
    if !is_canonical_decimal(it.amount) {
        None
    } else {
        let v = decimal_value(it.amount) as int;
        let memo = escaped_opt(it.memo);
        match cause {
            Cause::Mint => if it.amount == "0"@ {
                Some(Seq::empty())
            } else {
                Some(seq![event_view(ctx, it.owner_id, None, v, Cause::Mint, memo, false)])
            },
            Cause::Transfer => match it.new_owner_id {
                Some(n) => Some(transfer_views(ctx, it.owner_id, n, v, memo)),
                None => Some(Seq::empty()),
            },
            Cause::Burn => Some(seq![event_view(ctx, it.owner_id, None, -v, Cause::Burn, memo, false)]),
        }
    }
}

pub open spec fn ft_events_of(ctx: EventContext, cause: Cause, items: Seq<FtItemView>) -> Option<
    Seq<TokenEventView>,
>
    decreases items.len(),
{
    if items.len() == 0 {
        Some(Seq::empty())
    } else {
        match (ft_events_of(ctx, cause, items.drop_last()), ft_item_events(ctx, cause, items.last())) {
            (Some(a), Some(b)) => Some(a + b),
            _ => None,
        }
    }
}

/// Appends the balance changes of a NEP-141 event's records.
pub fn push_ft_events(out: &mut Vec<TokenEvent>, ctx: &EventContext, cause: Cause, items: &Vec<FtItem>) -> (r: Result<
    (),
    DecodeError,
>)
    requires
        all_wf(old(out)@),
    ensures
        all_wf(final(out)@),
        r is Err <==> ft_events_of(*ctx, cause, items@.map_values(|i: FtItem| i@)) is None,
        r is Err ==> event_views(final(out)@) == event_views(old(out)@),
        r is Ok ==> event_views(final(out)@) == event_views(old(out)@) + ft_events_of(
            *ctx,
            cause,
            items@.map_values(|i: FtItem| i@),
        )->0,
{
    let ghost its = items@.map_values(|i: FtItem| i@);
    let ghost start = event_views(out@);
    let n0 = out.len();
    let mut i: usize = 0;
    assert(its.take(0) =~= Seq::<FtItemView>::empty());
    assert(start + Seq::<TokenEventView>::empty() =~= start);
    while i < items.len()
        invariant
            its == items@.map_values(|i: FtItem| i@),
            start == event_views(old(out)@),
            n0 == start.len(),
            i <= items@.len(),
            all_wf(out@),
            ft_events_of(*ctx, cause, its.take(i as int)) matches Some(done) && event_views(out@)
                == start + done,
        decreases items@.len() - i,
    {
        assert(its.take(i + 1).drop_last() =~= its.take(i as int));
        assert(its.take(i + 1).last() == items@[i as int]@);
        let ghost done = ft_events_of(*ctx, cause, its.take(i as int))->0;
        let it = &items[i];
        let amount = match Amount::parse_unsigned(it.amount.as_str()) {
            Some(a) => a,
            None => {
                proof {
                    lemma_ft_events_stuck(*ctx, cause, its, i as int);
                    assert((start + done).subrange(0, n0 as int) =~= start);
                    assert(event_views(out@).len() == out@.len());
                }
                rollback(out, n0);
                return Err(DecodeError::BadAmount);
            },
        };
        let memo = escape_memo(&it.memo);
        let ghost before = event_views(out@);
        match cause {
            Cause::Mint => {
                if !text_is(&it.amount, "0") {
                    push_event(out, ctx, &it.owner_id, None, amount, Cause::Mint, &memo, false);
                }
            },
            Cause::Transfer => {
                match &it.new_owner_id {
                    Some(n) => {
                        push_transfer(out, ctx, &it.owner_id, n, &amount, &memo);
                    },
                    None => {},
                }
            },
            Cause::Burn => {
                push_event(out, ctx, &it.owner_id, None, amount.negated(), Cause::Burn, &memo, false);
            },
        }
        proof {
            let more = ft_item_events(*ctx, cause, its[i as int])->0;
            assert(event_views(out@) =~= before + more);
            assert(start + (done + more) =~= (start + done) + more);
        }
        i = i + 1;
    }
    assert(its.take(i as int) =~= its);
    Ok(())
}

proof fn lemma_ft_events_stuck(ctx: EventContext, cause: Cause, its: Seq<FtItemView>, i: int)
    requires
        0 <= i < its.len(),
        ft_item_events(ctx, cause, its[i]) is None,
    ensures
        ft_events_of(ctx, cause, its) is None,
    decreases its.len() - i,
{
    if i + 1 < its.len() {
        lemma_ft_events_stuck(ctx, cause, its.drop_last(), i);
        assert(its.drop_last()[i] == its[i]);
    } else {
        assert(its.last() == its[i]);
    }
}

/// What the NFT rows of one receipt share.
pub struct NftContext {
    pub shard_id: u64,
    pub receipt_id: String,
    pub contract_id: String,
    pub status: StatusLabel,
    pub timestamp: u64,
}

pub struct NftEventRowView {
    pub event_index: u128,
    pub receipt_id: Seq<char>,
    pub block_timestamp: u64,
    pub contract_account_id: Seq<char>,
    pub token_id: Seq<char>,
    pub cause: Cause,
    pub status: StatusLabel,
    pub old_owner_account_id: Option<Seq<char>>,
    pub new_owner_account_id: Option<Seq<char>>,
    pub authorized_account_id: Option<Seq<char>>,
    pub event_memo: Option<Seq<char>>,
}

impl View for NftEventRow {
    type V = NftEventRowView;

    open spec fn view(&self) -> NftEventRowView {
        NftEventRowView {
            event_index: self.event_index,
            receipt_id: self.receipt_id@,
            block_timestamp: self.block_timestamp,
            contract_account_id: self.contract_account_id@,
            token_id: self.token_id@,
            cause: self.cause,
            status: self.status,
            old_owner_account_id: opt_view(self.old_owner_account_id),
            new_owner_account_id: opt_view(self.new_owner_account_id),
            authorized_account_id: opt_view(self.authorized_account_id),
            event_memo: opt_view(self.event_memo),
        }
    }
}

pub open spec fn nft_row_views(s: Seq<NftEventRow>) -> Seq<NftEventRowView> {
    s.map_values(|r: NftEventRow| r@)
}

/// Each token of each record, with its record.
pub open spec fn token_pairs(items: Seq<NftItemView>) -> Seq<(NftItemView, Seq<char>)>
    decreases items.len(),
{
    if items.len() == 0 {
        Seq::empty()
    } else {
        token_pairs(items.drop_last()) + items.last().token_ids.map_values(
            |t: Seq<char>| (items.last(), t),
        )
    }
}

/// The row of one token; `position` counts the NFT rows of the shard before it.
pub open spec fn nft_row(ctx: NftContext, cause: Cause, it: NftItemView, token: Seq<char>, position: nat) -> NftEventRowView {
    NftEventRowView {
        event_index: event_index(ctx.timestamp, ctx.shard_id, EventKind::Nep171, position) as u128,
        receipt_id: ctx.receipt_id@,
        block_timestamp: ctx.timestamp,
        contract_account_id: ctx.contract_id@,
        token_id: escaped(token),
        cause,
        status: ctx.status,
        old_owner_account_id: if cause == Cause::Mint {
            None
        } else {
            Some(escaped(it.owner_id))
        },
        new_owner_account_id: match cause {
            Cause::Mint => Some(escaped(it.owner_id)),
            Cause::Transfer => escaped_opt(it.new_owner_id),
            Cause::Burn => None,
        },
        authorized_account_id: escaped_opt(it.authorized_id),
        event_memo: escaped_opt(it.memo),
    }
}

pub open spec fn nft_rows_of(ctx: NftContext, cause: Cause, pairs: Seq<(NftItemView, Seq<char>)>, start: nat) -> Seq<
    NftEventRowView,
> {
    Seq::new(pairs.len(), |k: int| nft_row(ctx, cause, pairs[k].0, pairs[k].1, start + k as nat))
}

fn copy_escaped(s: &Option<String>) -> (r: Option<String>)
    ensures
        opt_view(r) == escaped_opt(opt_view(*s)),
{
    escape_memo(s)
}

/// Appends one row per token of a NEP-171 event's records; `out` holds the
/// NFT rows of the shard so far, which fixes each new row's position.
pub fn push_nft_rows(out: &mut Vec<NftEventRow>, ctx: &NftContext, cause: Cause, items: &Vec<NftItem>)
    ensures
        nft_row_views(final(out)@) == nft_row_views(old(out)@) + nft_rows_of(
            *ctx,
            cause,
            token_pairs(items@.map_values(|i: NftItem| i@)),
            old(out)@.len() as nat,
        ),
{
    let ghost its = items@.map_values(|i: NftItem| i@);
    let ghost start = nft_row_views(out@);
    let ghost n0 = out@.len() as nat;
    let mut i: usize = 0;
    assert(its.take(0) =~= Seq::<NftItemView>::empty());
    assert(start + nft_rows_of(*ctx, cause, Seq::empty(), n0) =~= start);
    while i < items.len()
        invariant
            its == items@.map_values(|i: NftItem| i@),
            start == nft_row_views(old(out)@),
            n0 == old(out)@.len(),
            i <= items@.len(),
            nft_row_views(out@) == start + nft_rows_of(*ctx, cause, token_pairs(its.take(i as int)), n0),
        decreases items@.len() - i,
    {
        assert(its.take(i + 1).drop_last() =~= its.take(i as int));
        assert(its.take(i + 1).last() == items@[i as int]@);
        let it = &items[i];
        let ghost done = token_pairs(its.take(i as int));
        let ghost tokens = it@.token_ids.map_values(|t: Seq<char>| (it@, t));
        let mut j: usize = 0;
        while j < it.token_ids.len()
            invariant
                its == items@.map_values(|i: NftItem| i@),
                start == nft_row_views(old(out)@),
                n0 == old(out)@.len(),
                i < items@.len(),
                *it == items@[i as int],
                tokens == it@.token_ids.map_values(|t: Seq<char>| (it@, t)),
                j <= it.token_ids@.len(),
                nft_row_views(out@) == start + nft_rows_of(*ctx, cause, done + tokens.take(j as int), n0),
            decreases it.token_ids@.len() - j,
        {
            let position = out.len();
            proof {
                assert(nft_row_views(out@).len() == out@.len());
                assert(start.len() == n0);
                assert(tokens.take(j as int).len() == j);
                assert(out@.len() == n0 + done.len() + j);
            }
            let index = compose_db_index(ctx.timestamp, ctx.shard_id, EventKind::Nep171, position);
            let old_owner = if cause == Cause::Mint {
                None
            } else {
                Some(crate::outside::escape_text(it.owner_id.as_str()))
            };
            let new_owner = match cause {
                Cause::Mint => Some(crate::outside::escape_text(it.owner_id.as_str())),
                Cause::Transfer => copy_escaped(&it.new_owner_id),
                Cause::Burn => None,
            };
            let row = NftEventRow {
                event_index: index,
                receipt_id: copy_text(&ctx.receipt_id),
                block_timestamp: ctx.timestamp,
                contract_account_id: copy_text(&ctx.contract_id),
                token_id: crate::outside::escape_text(it.token_ids[j].as_str()),
                cause,
                status: ctx.status,
                old_owner_account_id: old_owner,
                new_owner_account_id: new_owner,
                authorized_account_id: copy_escaped(&it.authorized_id),
                event_memo: copy_escaped(&it.memo),
            };
            let ghost before = nft_row_views(out@);
            out.push(row);
            proof {
                let pairs = done + tokens.take(j + 1);
                assert(pairs =~= (done + tokens.take(j as int)).push((it@, it@.token_ids[j as int])));
                assert(row@ == nft_row(*ctx, cause, it@, it@.token_ids[j as int], n0 + done.len() + j as nat));
                assert(nft_row_views(out@) =~= before.push(row@));
                assert(nft_row_views(out@) =~= start + nft_rows_of(*ctx, cause, pairs, n0));
            }
            j = j + 1;
        }
        proof {
            assert(tokens.take(j as int) =~= tokens);
            assert(token_pairs(its.take(i + 1)) =~= done + tokens);
        }
        i = i + 1;
    }
    assert(its.take(i as int) =~= its);
}

} // verus!
