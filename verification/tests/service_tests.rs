use blockchain_intelligence::api::{
    health, lookup_response, resolve_pagination, socket_step, ApiError, PaginationParams, SocketAction, SocketEvent,
};
use blockchain_intelligence::ingest::{
    after_insert, block_transactions, normalize_block, normalize_transaction, BlockOutcome, ChainTransaction, ConsumerAction,
    FetchedBlock,
};
use blockchain_intelligence::pubsub::connect;
use blockchain_intelligence::metrics::{
    http_request_update, transaction_processed_update, ws_client_connected_update, ws_client_disconnected_update,
    ws_message_sent_update, record_http_request, record_transaction_processed, record_ws_client_connected, record_ws_client_disconnected,
    record_ws_message_sent, HistogramTimer,
};
use blockchain_intelligence::transaction::Transaction;

fn tx(hash: &str) -> Transaction {
    Transaction::new(String::from(hash), String::from("a"), None, String::from("1"), 0)
}

#[test]
fn health_is_ok() {
    assert_eq!(health().status, "Ok");
}

#[test]
fn pagination_defaults() {
    assert_eq!(resolve_pagination(&PaginationParams { limit: None, offset: None }), (10, 0));
    assert_eq!(resolve_pagination(&PaginationParams { limit: Some(25), offset: None }), (25, 0));
    assert_eq!(resolve_pagination(&PaginationParams { limit: None, offset: Some(40) }), (10, 40));
    assert_eq!(resolve_pagination(&PaginationParams { limit: Some(-1), offset: Some(-2) }), (-1, -2));
}

#[test]
fn lookup_answers() {
    let found: Result<Option<u32>, String> = Ok(Some(3));
    assert_eq!(lookup_response(found), Ok(3));
    let missing: Result<Option<u32>, String> = Ok(None);
    assert_eq!(lookup_response(missing), Err(ApiError::NotFound));
    let failed: Result<Option<u32>, String> = Err(String::from("db down"));
    assert_eq!(lookup_response(failed), Err(ApiError::InternalServerError));
    assert_eq!(ApiError::NotFound.status_code(), 404);
    assert_eq!(ApiError::InternalServerError.status_code(), 500);
}

#[test]
fn socket_session_steps() {
    match socket_step(SocketEvent::Broadcast(tx("h1"))) {
        SocketAction::Forward(t) => assert_eq!(t.hash, "h1"),
        _ => panic!("expected a forward"),
    }
    assert!(matches!(socket_step(SocketEvent::ClientMessage), SocketAction::Listen));
    assert!(matches!(socket_step(SocketEvent::ClientGone), SocketAction::Disconnect));
    assert!(matches!(socket_step(SocketEvent::BroadcastFailed), SocketAction::Disconnect));
    assert!(matches!(socket_step(SocketEvent::SendFailed), SocketAction::Disconnect));
}

#[test]
fn normalization_keeps_texts_and_converts_timestamp() {
    let t = normalize_transaction(
        String::from("0x01"),
        String::from("0x02"),
        Some(String::from("0x03")),
        String::from("1000000000000000000"),
        1_700_000_000,
    );
    assert_eq!(t.hash, "0x01");
    assert_eq!(t.from, "0x02");
    assert_eq!(t.to.as_deref(), Some("0x03"));
    assert_eq!(t.amount_wei, "1000000000000000000");
    assert_eq!(t.timestamp, 1_700_000_000);
    let contract_creation = normalize_transaction(String::new(), String::new(), None, String::from("0"), u64::MAX);
    assert!(contract_creation.to.is_none());
    assert_eq!(contract_creation.timestamp, -1);
}

#[test]
fn publish_only_after_storing() {
    assert_eq!(after_insert(true), ConsumerAction::Publish);
    assert_eq!(after_insert(false), ConsumerAction::Skip);
}

#[test]
fn metrics_record_without_a_recorder() {
    record_http_request();
    record_ws_message_sent();
    record_ws_client_connected();
    record_ws_client_disconnected();
    record_transaction_processed();
    let timer = HistogramTimer::start("blockchain_db_insert_duration_seconds");
    timer.observe();
}

#[test]
fn block_normalization_keeps_order() {
    let txs = vec![
        ChainTransaction {
            hash: String::from("0xa"),
            from: String::from("0x1"),
            to: Some(String::from("0x2")),
            value_wei: String::from("10"),
        },
        ChainTransaction { hash: String::from("0xb"), from: String::from("0x3"), to: None, value_wei: String::from("0") },
    ];
    let out = normalize_block(42, &txs);
    assert_eq!(out.len(), 2);
    assert_eq!(out[0].hash, "0xa");
    assert_eq!(out[0].to.as_deref(), Some("0x2"));
    assert_eq!(out[0].amount_wei, "10");
    assert_eq!(out[1].hash, "0xb");
    assert!(out[1].to.is_none());
    assert!(out.iter().all(|t| t.timestamp == 42));
    assert!(normalize_block(1, &Vec::new()).is_empty());
}

#[test]
fn block_outcomes() {
    assert!(matches!(block_transactions(5, &FetchedBlock::Missing), BlockOutcome::NotFound));
    assert!(matches!(block_transactions(5, &FetchedBlock::HashesOnly), BlockOutcome::NoFullTransactions));
    let full = FetchedBlock::Full(vec![ChainTransaction {
        hash: String::from("0xa"),
        from: String::from("0x1"),
        to: None,
        value_wei: String::from("3"),
    }]);
    match block_transactions(5, &full) {
        BlockOutcome::Transactions(out) => {
            assert_eq!(out.len(), 1);
            assert_eq!(out[0].hash, "0xa");
            assert_eq!(out[0].amount_wei, "3");
            assert_eq!(out[0].timestamp, 5);
        }
        _ => panic!("expected transactions"),
    }
}

#[test]
fn redis_urls() {
    assert!(connect("redis://127.0.0.1/").is_ok());
    assert!(connect("redis://127.0.0.1:6380/2").is_ok());
    assert!(connect("http://127.0.0.1/").is_err());
    assert!(connect("not a url").is_err());
}

#[test]
fn metric_updates_name_and_amount() {
    let u = http_request_update();
    assert_eq!((u.name, u.delta), ("blockchain_http_requests_total", 1));
    let u = ws_message_sent_update();
    assert_eq!((u.name, u.delta), ("blockchain_websocket_messages_sent_total", 1));
    let u = transaction_processed_update();
    assert_eq!((u.name, u.delta), ("blockchain_transaction_processed_total", 1));
    let g = ws_client_connected_update();
    assert_eq!((g.name, g.raise, g.delta), ("blockchain_websocket_clients", true, 1));
    let g = ws_client_disconnected_update();
    assert_eq!((g.name, g.raise, g.delta), ("blockchain_websocket_clients", false, 1));
}

#[test]
fn timer_keeps_its_histogram() {
    let timer = HistogramTimer::start("blockchain_redis_publish_duration_seconds");
    assert_eq!(timer.histogram_key(), "blockchain_redis_publish_duration_seconds");
    timer.observe();
}
