use pallets::dispatch::{DispatchError, Origin};
use pallets::ocw_currency_price::{
    check_response_code, collection_outcome, fetch_token_info_step, price_request_url, getLastTokenName, offchain_task,
    signed_tx_outcome, Error, Event, FetchAction, FetchEvent, Module, OffchainTask, Payload,
    TokenInfo, NUM_VEC_LEN, TOKENINFO_VEC_LEN,
};

#[test]
fn token_names_keep_the_newest_ten() {
    let mut m = Module::new();
    for i in 0..12u8 {
        assert_eq!(m.submit_token_name_signed(Origin::Signed(7), vec![i]), Ok(()));
    }
    let names = m.token_name_deque();
    assert_eq!(names.len(), NUM_VEC_LEN);
    let expected: Vec<Option<Vec<u8>>> = (2..12u8).map(|i| Some(vec![i])).collect();
    assert_eq!(names.into_iter().collect::<Vec<_>>(), expected);
    assert_eq!(m.events().len(), 12);
    assert_eq!(m.events()[11], Event::NewTokenName(Some(7), vec![11]));
    assert_eq!(m.token_name_to_submit(), Some(vec![11]));
}

#[test]
fn append_or_replace_token_name_below_the_bound_appends() {
    let mut m = Module::new();
    m.append_or_replace_token_name(b"btc".to_vec());
    m.append_or_replace_token_name(b"eth".to_vec());
    let names: Vec<_> = m.token_name_deque().into_iter().collect();
    assert_eq!(names, vec![Some(b"btc".to_vec()), Some(b"eth".to_vec())]);
    assert!(m.events().is_empty());
}

#[test]
fn token_infos_keep_the_newest_entries_under_the_last_name() {
    let mut m = Module::new();
    for p in 0..11u32 {
        let info = TokenInfo::new(b"btc".to_vec(), b"binance".to_vec(), p);
        assert_eq!(m.update_token_info(Origin::Signed(3), info), Ok(()));
    }
    assert_eq!(getLastTokenName(), vec![11, 22, 33]);
    let history = m.token_Infos(vec![11, 22, 33]);
    assert_eq!(history.len(), TOKENINFO_VEC_LEN);
    let prices: Vec<u32> = history.iter().map(|o| o.as_ref().unwrap().price()).collect();
    assert_eq!(prices, (1..11).collect::<Vec<u32>>());
    let first = history[0].as_ref().unwrap();
    assert_eq!(first.name(), &b"btc".to_vec());
    assert_eq!(first.exchange(), &b"binance".to_vec());
    assert!(m.token_Infos(b"eth".to_vec()).is_empty());
    assert_eq!(m.events()[0], Event::NewTokenName(Some(3), b"btc".to_vec()));
    assert_eq!(
        m.update_token_info(Origin::Unsigned, TokenInfo::default()),
        Err(DispatchError::BadOrigin)
    );
}

#[test]
fn offchain_worker_collects_every_fourth_block() {
    assert_eq!(offchain_task(0), Ok(OffchainTask::CollectSignedTokenInfo));
    assert_eq!(offchain_task(8), Ok(OffchainTask::CollectSignedTokenInfo));
    assert_eq!(offchain_task(1), Err(Error::UnknownOffchainMux));
    assert_eq!(offchain_task(7), Err(Error::UnknownOffchainMux));
    assert_eq!(offchain_task(u32::MAX as u64 + 1), Err(Error::UnknownOffchainMux));
    assert_eq!(offchain_task(u32::MAX as u64 - 3), Ok(OffchainTask::CollectSignedTokenInfo));
}

#[test]
fn no_token_name_is_submitted_from_an_empty_list() {
    let m = Module::new();
    assert_eq!(m.token_name_to_submit(), None);
    assert_eq!(collection_outcome(None), Ok(()));
}

#[test]
fn collection_outcome_follows_the_signed_transaction() {
    assert_eq!(collection_outcome(Some(Some(true))), Ok(()));
    assert_eq!(collection_outcome(Some(Some(false))), Err(Error::OffchainSignedTxError));
    assert_eq!(collection_outcome(Some(None)), Err(Error::NoLocalAcctForSigning));
}

#[test]
fn response_codes_other_than_ok_fail() {
    assert_eq!(check_response_code(200), Ok(()));
    assert_eq!(check_response_code(404), Err(Error::HttpFetchingError));
    assert_eq!(check_response_code(500), Err(Error::HttpFetchingError));
}

#[test]
fn signed_transaction_outcomes() {
    assert_eq!(signed_tx_outcome(Some(true)), Ok(()));
    assert_eq!(signed_tx_outcome(Some(false)), Err(Error::OffchainSignedTxError));
    assert_eq!(signed_tx_outcome(None), Err(Error::NoLocalAcctForSigning));
}

#[test]
fn fetch_steps() {
    assert_eq!(fetch_token_info_step(FetchEvent::Started), FetchAction::ReadCache);
    assert_eq!(fetch_token_info_step(FetchEvent::CacheRead(true)), FetchAction::Finish(Ok(())));
    assert_eq!(fetch_token_info_step(FetchEvent::CacheRead(false)), FetchAction::TryLock);
    assert_eq!(fetch_token_info_step(FetchEvent::LockTried(false)), FetchAction::Finish(Ok(())));
    assert_eq!(fetch_token_info_step(FetchEvent::LockTried(true)), FetchAction::FetchAndParse);
    assert_eq!(fetch_token_info_step(FetchEvent::Fetched(Ok(()))), FetchAction::StoreInCache);
    assert_eq!(
        fetch_token_info_step(FetchEvent::Fetched(Err(Error::HttpFetchingError))),
        FetchAction::Finish(Err(Error::HttpFetchingError))
    );
    assert_eq!(fetch_token_info_step(FetchEvent::Stored), FetchAction::Finish(Ok(())));
}

#[test]
fn payload_carries_its_signer() {
    let p = Payload::new(5, [9u8; 32]);
    assert_eq!(p.number(), 5);
    assert_eq!(p.public(), [9u8; 32]);
}

#[test]
fn token_info_describes_itself() {
    let info = TokenInfo::new(b"btc".to_vec(), b"binance".to_vec(), 42);
    assert_eq!(
        info.describe(),
        Some("{ login: btc, blog: binance, public_repos: 42 }".to_string())
    );
    let zero = TokenInfo::new(Vec::new(), b"x".to_vec(), 0);
    assert_eq!(zero.describe(), Some("{ login: , blog: x, public_repos: 0 }".to_string()));
    let max = TokenInfo::new(b"eth".to_vec(), b"y".to_vec(), u32::MAX);
    assert_eq!(
        max.describe(),
        Some("{ login: eth, blog: y, public_repos: 4294967295 }".to_string())
    );
    assert_eq!(TokenInfo::new(vec![0xff], b"y".to_vec(), 1).describe(), None);
    assert_eq!(TokenInfo::new(b"eth".to_vec(), vec![0xc3], 1).describe(), None);
}

#[test]
fn price_request_asks_for_the_usdt_pair() {
    assert_eq!(
        price_request_url(&b"btc".to_vec()),
        Some("http://141.164.45.97:8080/ares/api/getPartyPrice/btcusdt".to_string())
    );
    assert_eq!(price_request_url(&vec![0xfe, 0x01]), None);
}
