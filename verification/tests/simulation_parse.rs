use base64::engine::general_purpose::STANDARD as BASE64;
use base64::Engine as _;
use starforge::simulation_resources::{
    parse_simulation_response_str, plan_fee, SimulationResourceError, SimulationResources,
    DEFAULT_FEE_MARGIN_PERCENT, DEFAULT_INCLUSION_FEE_STROOPS, MAX_RESPONSE_BYTES,
};
use stellar_xdr::{
    LedgerFootprint, LedgerKey, LedgerKeyContractCode, Limits,
    SorobanResources, SorobanTransactionData, WriteXdr,
};

fn transaction_data_xdr(read_only: u32, read_write: u32) -> String {
    let key = |seed: u8| LedgerKey::ContractCode(LedgerKeyContractCode { hash: stellar_xdr::Hash([seed; 32]) });
    let data = SorobanTransactionData {
        ext: stellar_xdr::SorobanTransactionDataExt::V0,
        resources: SorobanResources {
            footprint: LedgerFootprint {
                read_only: (0..read_only).map(|i| key(i as u8)).collect::<Vec<_>>().try_into().unwrap(),
                read_write: (0..read_write)
                    .map(|i| key(100 + i as u8))
                    .collect::<Vec<_>>()
                    .try_into()
                    .unwrap(),
            },
            instructions: 1_234_567,
            disk_read_bytes: 4_096,
            write_bytes: 512,
        },
        resource_fee: 58_181,
    };
    BASE64.encode(data.to_xdr(Limits::none()).unwrap())
}

fn full_response() -> String {
    format!(
        "{{\"latestLedger\":1234567,\"minResourceFee\":\"58181\",\
         \"cost\":{{\"cpuInsns\":\"1274180\",\"memBytes\":\"1275072\"}},\
         \"transactionData\":\"{}\",\"events\":[]}}",
        transaction_data_xdr(2, 1)
    )
}

fn parse(raw: &str) -> Result<SimulationResources, SimulationResourceError> {
    parse_simulation_response_str(raw)
}

#[test]
fn parses_cpu_memory_footprint_and_min_fee() {
    let res = parse(&full_response()).unwrap();
    assert_eq!(res.min_resource_fee_stroops, 58_181);
    assert_eq!(res.cpu_instructions, Some(1_274_180));
    assert_eq!(res.memory_bytes, Some(1_275_072));
    assert_eq!(res.latest_ledger, Some(1_234_567));
    let fp = res.footprint.expect("footprint decoded");
    assert_eq!(fp.read_only_entries, 2);
    assert_eq!(fp.read_write_entries, 1);
    assert_eq!(fp.total_entries(), 3);
    assert_eq!(fp.read_bytes, 4_096);
    assert_eq!(fp.write_bytes, 512);
    assert_eq!(fp.instructions, 1_234_567);
    assert_eq!(fp.resource_fee_stroops, 58_181);
    assert!(res.warnings.is_empty());
}

#[test]
fn plans_fee_with_default_margin() {
    let res = parse(&full_response()).unwrap();
    let plan = plan_fee(&res, DEFAULT_FEE_MARGIN_PERCENT, DEFAULT_INCLUSION_FEE_STROOPS).unwrap();
    assert_eq!(plan.min_resource_fee_stroops, 58_181);
    assert_eq!(plan.margin_stroops, 58_181 * 20 / 100);
    assert_eq!(plan.recommended_fee_stroops, 58_181 + (58_181 * 20 / 100) + 100);
}

#[test]
fn unwraps_jsonrpc_envelope() {
    let envelope = format!("{{\"jsonrpc\":\"2.0\",\"id\":1,\"result\":{}}}", full_response());
    assert_eq!(parse(&envelope).unwrap().min_resource_fee_stroops, 58_181);
}

#[test]
fn accepts_numeric_min_resource_fee() {
    let raw = format!(
        "{{\"minResourceFee\":42,\"transactionData\":\"{}\"}}",
        transaction_data_xdr(1, 0)
    );
    assert_eq!(parse(&raw).unwrap().min_resource_fee_stroops, 42);
}

#[test]
fn parses_from_raw_string() {
    assert_eq!(parse_simulation_response_str(&full_response()).unwrap().min_resource_fee_stroops, 58_181);
}

#[test]
fn missing_cost_object_falls_back_to_transaction_data() {
    let raw = format!(
        "{{\"minResourceFee\":\"1000\",\"transactionData\":\"{}\"}}",
        transaction_data_xdr(0, 1)
    );
    let res = parse(&raw).unwrap();
    assert_eq!(res.cpu_instructions, Some(1_234_567));
    assert_eq!(res.memory_bytes, None);
    assert!(res.warnings.iter().any(|w| w.contains("cost.memBytes")));
    assert!(res.warnings.iter().any(|w| w.contains("CPU instructions taken")));
}

#[test]
fn absent_transaction_data_yields_no_footprint_but_still_plans() {
    let res = parse("{\"minResourceFee\":\"700\"}").unwrap();
    assert!(res.footprint.is_none());
    assert_eq!(res.cpu_instructions, None);
    assert!(res.warnings.iter().any(|w| w.contains("transactionData")));
    assert_eq!(plan_fee(&res, 0, 0).unwrap().recommended_fee_stroops, 700);
}

#[test]
fn restore_preamble_is_added_to_the_plan() {
    let res = parse(
        "{\"minResourceFee\":\"1000\",\"restorePreamble\":{\"minResourceFee\":\"250\",\"transactionData\":\"\"}}",
    )
    .unwrap();
    assert!(res.requires_restore());
    let plan = plan_fee(&res, 0, 0).unwrap();
    assert_eq!(plan.restore_fee_stroops, 250);
    assert_eq!(plan.recommended_fee_stroops, 1_250);
}

#[test]
fn empty_footprint_decodes_to_zero_entries() {
    let raw = format!(
        "{{\"minResourceFee\":\"1\",\"transactionData\":\"{}\"}}",
        transaction_data_xdr(0, 0)
    );
    assert_eq!(parse(&raw).unwrap().footprint.unwrap().total_entries(), 0);
}

#[test]
fn rejects_non_object_payloads() {
    assert_eq!(parse("[1, 2, 3]").unwrap_err(), SimulationResourceError::NotAnObject);
    assert_eq!(parse("null").unwrap_err(), SimulationResourceError::NotAnObject);
}

#[test]
fn surfaces_host_simulation_errors() {
    let err = parse("{\"error\":\"HostError: Error(Contract, #3)\",\"minResourceFee\":\"0\"}").unwrap_err();
    assert!(matches!(err, SimulationResourceError::SimulationFailed(msg) if msg.contains("HostError")));
}

#[test]
fn surfaces_jsonrpc_transport_errors() {
    let err = parse("{\"jsonrpc\":\"2.0\",\"error\":{\"code\":-32602,\"message\":\"invalid transaction\"}}")
        .unwrap_err();
    assert_eq!(err, SimulationResourceError::RpcError("invalid transaction".to_string()));
    let err = parse("{\"error\":{\"code\":1}}").unwrap_err();
    assert_eq!(err, SimulationResourceError::RpcError("unknown error".to_string()));
}

#[test]
fn rejects_responses_without_resource_accounting() {
    let err = parse("{\"status\":\"ok\"}").unwrap_err();
    assert!(matches!(err, SimulationResourceError::UnsupportedResponse(_)));
}

#[test]
fn rejects_malformed_numeric_fields() {
    for bad in ["\"not-a-number\"", "-1", "1.5", "\"\"", "null", "{}"] {
        let err = parse(&format!("{{\"minResourceFee\":{}}}", bad)).unwrap_err();
        assert!(
            matches!(&err, SimulationResourceError::InvalidField { field, .. } if field == "minResourceFee"),
            "expected InvalidField for {:?}, got {:?}",
            bad,
            err
        );
    }
}

#[test]
fn numeric_field_errors_name_the_reason() {
    let reason = |bad: &str| match parse(&format!("{{\"minResourceFee\":{}}}", bad)).unwrap_err() {
        SimulationResourceError::InvalidField { reason, .. } => reason,
        other => panic!("unexpected {:?}", other),
    };
    assert_eq!(reason("-1"), "expected a non-negative integer");
    assert_eq!(reason("1.5"), "expected an integer, got a fractional number");
    assert_eq!(reason("\" \""), "value is empty");
    assert_eq!(reason("\"12a\""), "expected a decimal non-negative integer string");
    assert_eq!(reason("\"99999999999999999999\""), "value does not fit in u64 stroops");
    assert_eq!(reason("null"), "value is null");
    assert_eq!(reason("true"), "expected a number or a numeric string");
    assert_eq!(parse("{\"minResourceFee\":\" 007 \"}").unwrap().min_resource_fee_stroops, 7);
}

#[test]
fn rejects_undecodable_transaction_data() {
    let err = parse("{\"minResourceFee\":\"1\",\"transactionData\":\"!!!not base64!!!\"}").unwrap_err();
    assert!(matches!(&err, SimulationResourceError::InvalidField { field, reason }
        if field == "transactionData" && reason.contains("base64")));
    let raw = format!(
        "{{\"minResourceFee\":\"1\",\"transactionData\":\"{}\"}}",
        BASE64.encode([0xffu8; 8])
    );
    let err = parse(&raw).unwrap_err();
    assert!(matches!(&err, SimulationResourceError::InvalidField { field, .. } if field == "transactionData"));
    let err = parse("{\"minResourceFee\":\"1\",\"transactionData\":7}").unwrap_err();
    assert!(matches!(&err, SimulationResourceError::InvalidField { reason, .. }
        if reason == "expected a base64-encoded XDR string"));
}

#[test]
fn rejects_oversized_documents() {
    let raw = format!("{{\"pad\":\"{}\"}}", "a".repeat(MAX_RESPONSE_BYTES));
    assert!(matches!(
        parse_simulation_response_str(&raw).unwrap_err(),
        SimulationResourceError::ResponseTooLarge { .. }
    ));
}

#[test]
fn rejects_invalid_json_text() {
    assert!(matches!(
        parse_simulation_response_str("{not json").unwrap_err(),
        SimulationResourceError::InvalidField { field, .. } if field == "<document>"
    ));
}

#[test]
fn rejects_ledger_sequence_above_u32() {
    let err = parse("{\"minResourceFee\":\"1\",\"latestLedger\":18446744073709551615}").unwrap_err();
    assert!(matches!(&err, SimulationResourceError::InvalidField { field, .. } if field == "latestLedger"));
}

#[test]
fn restore_preamble_without_fee_is_rejected() {
    let err = parse("{\"minResourceFee\":\"1\",\"restorePreamble\":{\"transactionData\":\"\"}}").unwrap_err();
    assert_eq!(
        err,
        SimulationResourceError::MissingField("restorePreamble.minResourceFee".to_string())
    );
}
