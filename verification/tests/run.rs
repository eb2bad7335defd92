use mrfy::asa::{process_document, run, Meta};
use mrfy::cli::{Cli, DEFAULT_BUFF_SIZE};
use mrfy::emit::{print_header, print_record};
use mrfy::error::{Failure, Fatal};
use mrfy::event::EventSource;
use mrfy::network::process_in_network;
use mrfy::notices::Notices;
use mrfy::query::{Code, Provider, Query};
use mrfy::records::{Network, Price, Rate};

const HEADER: &str = "npi,tin_type,tin_value,group_id,negotiation_arrangement,name,billing_code_type,billing_code_type_version,billing_code,description,negotiated_type,negotiated_rate,expiration_date,service_code,billing_class,billing_code_modifier\n";

const META: &str = r#""reporting_entity_name": "Aetna Signature Administrators",
    "reporting_entity_type": "Third Party Vendor",
    "last_updated_on": "2025-04-05",
    "version": "1.3.1","#;

const BASIC_PROVIDERS: &str = r#""provider_references": [
        {"provider_group_id": 11,
         "provider_groups": [{"npi": [1701], "tin": {"type": "ein", "value": "101"}}]}
    ]"#;

const BASIC_NETWORK: &str = r#""in_network": [
        {"negotiation_arrangement": "alpha",
         "name": "Item 1",
         "billing_code_type": "Type 1",
         "billing_code_type_version": "2022",
         "billing_code": "Code 1",
         "description": "Item 1",
         "negotiated_rates": [
            {"provider_references": [11],
             "negotiated_prices": [
                {"negotiated_type": "neg type 1",
                 "negotiated_rate": 9.99,
                 "expiration_date": "9999-12-31",
                 "service_code": ["A", "B", "C"],
                 "billing_class": "class 1"}
             ]}
         ]}
    ]"#;

fn document(first: &str, second: &str) -> String {
    format!("{{{}\n{},\n{}}}", META, first, second)
}

fn gzip(text: &str) -> Vec<u8> {
    let mut encoder =
        flate2::write::GzEncoder::new(Vec::new(), flate2::Compression::default());
    std::io::Write::write_all(&mut encoder, text.as_bytes()).unwrap();
    encoder.finish().unwrap()
}

fn basic_query() -> Query {
    let c = Code::new(&String::from("*"), &String::from("Code 1"));
    let p = Provider::new(1701);
    let mut q = Query::new();
    q.codes.push(c);
    q.providers.push(p);
    q
}

fn rows_of(q: &mut Query, json: &str) -> (Result<(), Failure>, String, Notices) {
    let mut out = String::new();
    let mut notices = Notices::new();
    let r = process_document(q, json.as_bytes(), &mut out, &mut notices);
    (r, out, notices)
}

#[test]
fn basic_test_of_run_and_reset() {
    // Simple basic expected output
    let mut expected_out = String::from("");
    expected_out.push_str("npi,tin_type,tin_value,group_id,negotiation_arrangement,name,billing_code_type,billing_code_type_version,billing_code,description,negotiated_type,negotiated_rate,expiration_date,service_code,billing_class,billing_code_modifier\n");

    expected_out.push_str("1701,ein,101,11,alpha,Item 1,Type 1,2022,CODE 1,Item 1,neg type 1,9.99,9999-12-31,A B C ,class 1,null\n");

    // The arrays in their usual order
    let data1 = gzip(&document(BASIC_PROVIDERS, BASIC_NETWORK));

    let mut buffer = String::new();

    // Input
    let c = Code::new(&String::from("*"), &String::from("Code 1"));
    let p = Provider::new(1701);
    let mut q = Query::new();

    q.codes.push(c);
    q.providers.push(p);

    let mut q2 = q.clone();

    let mut notices = Notices::new();
    let res = run(&mut q, &data1, &mut buffer, &mut notices);
    match res {
        Err(_) => {
            println!("ERROR when processing run!");
        }
        _ => {}
    }

    assert_eq!(buffer, expected_out);

    let mut buffer2 = String::new();

    // in_network and provider_references are swapped
    let data2 = gzip(&document(BASIC_NETWORK, BASIC_PROVIDERS));

    let mut notices2 = Notices::new();
    let res2 = run(&mut q2, &data2, &mut buffer2, &mut notices2);
    match res2 {
        Err(_) => {
            println!("ERROR when processing run!");
        }
        _ => {}
    }

    assert_eq!(buffer2, expected_out);
    assert!(res.is_ok());
    assert!(res2.is_ok());
}

#[test]
fn run_refuses_data_that_are_not_gzip() {
    let mut q = basic_query();
    let before = q.clone();
    let mut out = String::new();
    let mut notices = Notices::new();
    let json = document(BASIC_PROVIDERS, BASIC_NETWORK);
    match run(&mut q, json.as_bytes(), &mut out, &mut notices) {
        Err(Failure::Fatal(f)) => assert_eq!(f, Fatal::BadCompression),
        _ => panic!("a fatal error was owed"),
    }
    assert_eq!(out, "");
    assert_eq!(q, before);
}

#[test]
fn basic_scenario_records_the_match_and_shows_the_metadata() {
    let mut q = basic_query();
    let (r, out, notices) = rows_of(&mut q, &document(BASIC_PROVIDERS, BASIC_NETWORK));
    assert!(r.is_ok());
    assert_eq!(
        out,
        format!(
            "{}{}",
            HEADER,
            "1701,ein,101,11,alpha,Item 1,Type 1,2022,CODE 1,Item 1,neg type 1,9.99,9999-12-31,A B C ,class 1,null\n"
        )
    );
    assert_eq!(q.providers.len(), 1);
    assert_eq!(q.providers[0].group_id, Some(11));
    assert!(q.providers[0].recorded);
    assert!(q.codes[0].recorded);
    assert!(q.warn_not_recorded().is_empty());
    assert_eq!(
        notices.lines,
        vec![
            String::from("reporting_entity_name: Aetna Signature Administrators"),
            String::from("reporting_entity_type: Third Party Vendor"),
            String::from("last_updated_on: 2025-04-05"),
            String::from("version: 1.3.1"),
        ]
    );
    assert!(notices.keys.is_empty());
}

#[test]
fn reversed_arrays_give_the_same_output() {
    let mut q = basic_query();
    let (r, out, _) = rows_of(&mut q, &document(BASIC_PROVIDERS, BASIC_NETWORK));
    let mut q2 = basic_query();
    let (r2, out2, notices2) = rows_of(&mut q2, &document(BASIC_NETWORK, BASIC_PROVIDERS));
    assert!(r.is_ok());
    assert!(r2.is_ok());
    assert_eq!(out, out2);
    // The second walk adds no record: the query is the same in both orders.
    assert_eq!(q, q2);
    assert_eq!(q2.providers.len(), 1);
    assert!(q2.warn_not_recorded().is_empty());
    // The metadata is shown once, though the document is walked twice.
    assert_eq!(notices2.lines.len(), 4);
}

#[test]
fn the_same_input_gives_the_same_output() {
    let json = document(BASIC_NETWORK, BASIC_PROVIDERS);
    let mut q = basic_query();
    let (_, out, notices) = rows_of(&mut q, &json);
    let mut q2 = basic_query();
    let (_, out2, notices2) = rows_of(&mut q2, &json);
    assert_eq!(out, out2);
    assert_eq!(q, q2);
    assert_eq!(notices.lines, notices2.lines);
    assert_eq!(notices.keys, notices2.keys);
}

const SPLIT_PROVIDERS: &str = r#""provider_references": [
        {"provider_group_id": 2,
         "provider_groups": [
            {"npi": [1], "tin": {"type": "ein", "value": "123"}},
            {"npi": [1, 9], "tin": {"type": "ein", "value": "246"}}
         ]},
        {"provider_group_id": 3,
         "provider_groups": [
            {"npi": [2], "tin": {"type": "ein", "value": "44"}},
            {"npi": [3], "tin": {"type": "ein", "value": "55"}}
         ]},
        {"provider_group_id": 5,
         "provider_groups": [{"npi": [4], "tin": {"type": "ein", "value": "777"}}]}
    ]"#;

const MANY_NETWORK: &str = r#""in_network": [
        {"negotiation_arrangement": "alpha", "name": "Item 1", "billing_code_type": "Type 1",
         "billing_code_type_version": "2022", "billing_code": "Code 1", "description": "Item 1",
         "negotiated_rates": [
            {"provider_references": [2, 7],
             "negotiated_prices": [
                {"negotiated_type": "neg type 1", "negotiated_rate": 100.99,
                 "expiration_date": "9999-12-31", "service_code": ["A", "B", "C"],
                 "billing_class": "class 1"}]}]},
        {"negotiation_arrangement": "alpha", "name": "Item 2", "billing_code_type": "Type 2",
         "billing_code_type_version": "2022", "billing_code": "Code 2", "description": "Item 2",
         "negotiated_rates": [
            {"provider_references": [2],
             "negotiated_prices": [{"negotiated_type": "neg type 2", "negotiated_rate": 1}]}]},
        {"negotiation_arrangement": "alpha", "name": "Item 3", "billing_code_type": "Type 3",
         "billing_code_type_version": "2022", "billing_code": "Code 3", "description": "Item 3",
         "negotiated_rates": [
            {"provider_references": [5],
             "negotiated_prices": [
                {"negotiated_type": "neg type 3", "negotiated_rate": 3000.17,
                 "expiration_date": "9999-12-31", "service_code": ["A"],
                 "billing_class": "class 3"}]},
            {"provider_references": [8],
             "negotiated_prices": [{"negotiated_type": "never", "negotiated_rate": 2}]}]},
        {"negotiation_arrangement": "beta", "name": "Item 4", "billing_code_type": "Type 4",
         "billing_code": "Code 4", "description": "Item 4",
         "negotiated_rates": [
            {"provider_references": [2],
             "negotiated_prices": [
                {"negotiated_type": "neg type 4", "negotiated_rate": 4120.99,
                 "expiration_date": "9999-12-31", "service_code": ["A", "Z"],
                 "billing_class": "class 4"}]}]},
        {"negotiation_arrangement": "alpha", "name": "Item 5", "billing_code_type": "Type 5",
         "billing_code_type_version": "2022", "billing_code": "Code 5", "description": "Item 5",
         "negotiated_rates": [
            {"provider_references": [2, 3], "negotiated_prices": []}]},
        {"negotiation_arrangement": "alpha", "name": "Item 6", "billing_code_type": "Type 6",
         "billing_code_type_version": "2022", "billing_code": "Code 6", "description": "Item 6",
         "negotiated_rates": [
            {"provider_references": [99],
             "negotiated_prices": [{"negotiated_type": "neg type 6", "negotiated_rate": 6}]}]},
        {"negotiation_arrangement": "alpha", "name": "Item 7", "billing_code_type": "Type 7",
         "billing_code_type_version": "2022", "billing_code": "Code 7", "description": "Item 7",
         "negotiated_rates": [
            {"provider_references": [2, 3],
             "negotiated_prices": [
                {"negotiated_type": "neg type 7", "negotiated_rate": 739.99,
                 "expiration_date": "3030-10-31", "service_code": ["A", "B", "C"],
                 "billing_class": "class 7"}]}]},
        {"negotiation_arrangement": "gamma", "name": "Item 8", "billing_code_type": "Type 8",
         "billing_code_type_version": "2017", "billing_code": "Code 8", "description": "Item 8",
         "negotiated_rates": [
            {"provider_references": [5],
             "negotiated_prices": [
                {"negotiated_type": "neg type 8", "negotiated_rate": 89.17,
                 "expiration_date": "9999-12-31", "service_code": ["A"],
                 "billing_class": "class 8"},
                {"negotiated_type": "neg type 8 deluxe", "negotiated_rate": 8.45,
                 "expiration_date": "9999-12-31", "service_code": ["Z"],
                 "billing_class": "class 8 deluxe", "billing_code_modifier": "DX"}]}]}
    ]"#;

fn many_query() -> Query {
    let mut q = Query::new();
    for npi in [1, 2, 3, 4] {
        q.providers.push(Provider::new(npi));
    }
    for code in ["Code 1", "Code 3", "Code 4", "Code 5", "code 6", "Code 7", "Code 8"] {
        q.codes.push(Code::new(&String::from("*"), &String::from(code)));
    }
    q
}

const MANY_ROWS: &str = "\
1,ein,123,2,alpha,Item 1,Type 1,2022,CODE 1,Item 1,neg type 1,100.99,9999-12-31,A B C ,class 1,null\n\
1,ein,246,2,alpha,Item 1,Type 1,2022,CODE 1,Item 1,neg type 1,100.99,9999-12-31,A B C ,class 1,null\n\
4,ein,777,5,alpha,Item 3,Type 3,2022,CODE 3,Item 3,neg type 3,3000.17,9999-12-31,A ,class 3,null\n\
1,ein,123,2,beta,Item 4,Type 4,null,CODE 4,Item 4,neg type 4,4120.99,9999-12-31,A Z ,class 4,null\n\
1,ein,246,2,beta,Item 4,Type 4,null,CODE 4,Item 4,neg type 4,4120.99,9999-12-31,A Z ,class 4,null\n\
1,ein,123,2,alpha,Item 5,Type 5,2022,CODE 5,Item 5,null,null,null,null,null,null\n\
1,ein,246,2,alpha,Item 5,Type 5,2022,CODE 5,Item 5,null,null,null,null,null,null\n\
2,ein,44,3,alpha,Item 5,Type 5,2022,CODE 5,Item 5,null,null,null,null,null,null\n\
3,ein,55,3,alpha,Item 5,Type 5,2022,CODE 5,Item 5,null,null,null,null,null,null\n\
1,ein,123,2,alpha,Item 7,Type 7,2022,CODE 7,Item 7,neg type 7,739.99,3030-10-31,A B C ,class 7,null\n\
1,ein,246,2,alpha,Item 7,Type 7,2022,CODE 7,Item 7,neg type 7,739.99,3030-10-31,A B C ,class 7,null\n\
2,ein,44,3,alpha,Item 7,Type 7,2022,CODE 7,Item 7,neg type 7,739.99,3030-10-31,A B C ,class 7,null\n\
3,ein,55,3,alpha,Item 7,Type 7,2022,CODE 7,Item 7,neg type 7,739.99,3030-10-31,A B C ,class 7,null\n\
4,ein,777,5,gamma,Item 8,Type 8,2017,CODE 8,Item 8,neg type 8,89.17,9999-12-31,A ,class 8,null\n\
4,ein,777,5,gamma,Item 8,Type 8,2017,CODE 8,Item 8,neg type 8 deluxe,8.45,9999-12-31,Z ,class 8 deluxe,DX\n";

#[test]
fn intermediate_integration_test() {
    let mut q = many_query();
    let data = gzip(&document(SPLIT_PROVIDERS, MANY_NETWORK));
    let mut out = String::new();
    let mut notices = Notices::new();
    let r = run(&mut q, &data, &mut out, &mut notices);
    assert!(r.is_ok());
    assert_eq!(out, format!("{}{}", HEADER, MANY_ROWS));
}

#[test]
fn intermediate_scenario_with_the_arrays_reversed() {
    let mut q = many_query();
    let (r, out, _) = rows_of(&mut q, &document(MANY_NETWORK, SPLIT_PROVIDERS));
    assert!(r.is_ok());
    assert_eq!(out, format!("{}{}", HEADER, MANY_ROWS));
    let mut straight = many_query();
    let (r, _, _) = rows_of(&mut straight, &document(SPLIT_PROVIDERS, MANY_NETWORK));
    assert!(r.is_ok());
    assert_eq!(q, straight);
    assert_eq!(q.providers.len(), 5);
}

#[test]
fn every_row_has_sixteen_fields() {
    let mut q = many_query();
    let (_, out, _) = rows_of(&mut q, &document(SPLIT_PROVIDERS, MANY_NETWORK));
    let mut n = 0;
    for line in out.lines().skip(1) {
        assert_eq!(line.split(',').count(), 16);
        n += 1;
    }
    assert_eq!(n, 15);
}

#[test]
fn no_row_has_a_code_or_a_group_that_the_query_lacks() {
    let mut q = many_query();
    let (_, out, _) = rows_of(&mut q, &document(SPLIT_PROVIDERS, MANY_NETWORK));
    for line in out.lines().skip(1) {
        let fields: Vec<&str> = line.split(',').collect();
        assert_ne!(fields[8], "CODE 2");
        assert_ne!(fields[8], "CODE 6");
        assert!(["2", "3", "5"].contains(&fields[3]));
    }
}

#[test]
fn split_provider_group_gives_a_row_for_each_tin() {
    let mut q = Query::new();
    q.providers.push(Provider::new(1));
    q.codes.push(Code::new(&String::from("*"), &String::from("code 1")));
    let (r, out, _) = rows_of(&mut q, &document(SPLIT_PROVIDERS, MANY_NETWORK));
    assert!(r.is_ok());
    assert_eq!(
        out,
        format!(
            "{}{}{}",
            HEADER,
            "1,ein,123,2,alpha,Item 1,Type 1,2022,CODE 1,Item 1,neg type 1,100.99,9999-12-31,A B C ,class 1,null\n",
            "1,ein,246,2,alpha,Item 1,Type 1,2022,CODE 1,Item 1,neg type 1,100.99,9999-12-31,A B C ,class 1,null\n"
        )
    );
    assert_eq!(q.providers.len(), 2);
    assert_eq!(q.providers[0].tin_value, Some(String::from("123")));
    assert_eq!(q.providers[1].tin_value, Some(String::from("246")));
}

#[test]
fn empty_prices_give_one_row_of_nulls() {
    let mut q = Query::new();
    q.providers.push(Provider::new(2));
    q.codes.push(Code::new(&String::from("Type 5"), &String::from("Code 5")));
    let (r, out, _) = rows_of(&mut q, &document(SPLIT_PROVIDERS, MANY_NETWORK));
    assert!(r.is_ok());
    assert_eq!(
        out,
        format!(
            "{}{}",
            HEADER,
            "2,ein,44,3,alpha,Item 5,Type 5,2022,CODE 5,Item 5,null,null,null,null,null,null\n"
        )
    );
}

#[test]
fn wildcard_code_matches_every_element_with_a_reference_of_the_query() {
    let mut q = Query::new();
    q.providers.push(Provider::new(4));
    q.codes.push(Code::new(&String::from("*"), &String::from("*")));
    let (r, out, _) = rows_of(&mut q, &document(SPLIT_PROVIDERS, MANY_NETWORK));
    assert!(r.is_ok());
    assert_eq!(
        out,
        format!(
            "{}{}{}{}",
            HEADER,
            "4,ein,777,5,alpha,Item 3,Type 3,2022,CODE 3,Item 3,neg type 3,3000.17,9999-12-31,A ,class 3,null\n",
            "4,ein,777,5,gamma,Item 8,Type 8,2017,CODE 8,Item 8,neg type 8,89.17,9999-12-31,A ,class 8,null\n",
            "4,ein,777,5,gamma,Item 8,Type 8,2017,CODE 8,Item 8,neg type 8 deluxe,8.45,9999-12-31,Z ,class 8 deluxe,DX\n"
        )
    );
    assert!(q.codes[0].recorded);
}

#[test]
fn unknown_key_is_named_once_and_changes_no_row() {
    let network = r#""in_network": [
        {"billing_code": "Code 1", "mystery": {"a": [1, {"b": []}]}, "name": "one",
         "negotiated_rates": [
            {"provider_references": [11], "mystery": [1, 2],
             "negotiated_prices": [{"negotiated_rate": 1, "mystery": "x"}]}]},
        {"billing_code": "Code 1", "mystery": [[], {}], "name": "two",
         "negotiated_rates": [
            {"provider_references": [11],
             "negotiated_prices": [{"negotiated_rate": 2}]}]}
    ], "mystery": 4"#;
    let mut q = basic_query();
    let (r, out, notices) = rows_of(&mut q, &document(BASIC_PROVIDERS, network));
    assert!(r.is_ok());
    assert_eq!(
        out,
        format!(
            "{}{}{}",
            HEADER,
            "1701,ein,101,11,null,one,null,null,CODE 1,null,null,1,null,null,null,null\n",
            "1701,ein,101,11,null,two,null,null,CODE 1,null,null,2,null,null,null,null\n"
        )
    );
    assert_eq!(notices.keys, vec![String::from("mystery")]);
    let named: Vec<&String> = notices.lines.iter().filter(|l| l.contains("mystery")).collect();
    assert_eq!(named, vec![&String::from("Unsupported key mystery found in Network")]);
}

#[test]
fn unmatched_npi_gives_a_warning_after_a_run_that_succeeds() {
    let mut q = basic_query();
    q.providers.push(Provider::new(4242));
    let (r, out, _) = rows_of(&mut q, &document(BASIC_PROVIDERS, BASIC_NETWORK));
    assert!(r.is_ok());
    assert_eq!(out.lines().count(), 2);
    let warnings = q.warn_not_recorded();
    assert!(warnings.contains(&String::from("WARNING: Zero matches found for npi: 4242")));
    assert!(!warnings.contains(&String::from("WARNING: Zero matches found for npi: 1701")));
}

#[test]
fn no_provider_of_the_query_in_the_file_ends_the_run_early() {
    let mut q = Query::new();
    q.providers.push(Provider::new(4242));
    q.codes.push(Code::new(&String::from("*"), &String::from("*")));
    let (r, out, notices) = rows_of(&mut q, &document(BASIC_PROVIDERS, BASIC_NETWORK));
    assert!(r.is_ok());
    assert_eq!(out, "");
    assert_eq!(
        notices.lines.last(),
        Some(&String::from("No providers from query found in file."))
    );
}

#[test]
fn document_without_one_of_the_arrays_is_refused() {
    let mut q = basic_query();
    let json = format!("{{{}}}", BASIC_PROVIDERS);
    match rows_of(&mut q, &json).0 {
        Err(Failure::Fatal(f)) => assert_eq!(f, Fatal::MissingArray),
        _ => panic!("a fatal error was owed"),
    }
    let mut q = basic_query();
    let json = format!("{{{}}}", BASIC_NETWORK);
    match rows_of(&mut q, &json).0 {
        Err(Failure::Fatal(f)) => assert_eq!(f, Fatal::MissingArray),
        _ => panic!("a fatal error was owed"),
    }
}

#[test]
fn document_that_ends_early_is_refused() {
    let whole = document(BASIC_PROVIDERS, BASIC_NETWORK);
    let cut = &whole[..whole.len() - 1];
    let mut q = basic_query();
    let (r, out, _) = rows_of(&mut q, cut);
    match r {
        Err(Failure::Fatal(f)) => assert_eq!(f, Fatal::MalformedInput),
        _ => panic!("a fatal error was owed"),
    }
    // The rows that were written before the end stay.
    assert_eq!(out.lines().count(), 2);
    let mut q = basic_query();
    match rows_of(&mut q, "").0 {
        Err(Failure::Fatal(f)) => assert_eq!(f, Fatal::MalformedInput),
        _ => panic!("a fatal error was owed"),
    }
}

#[test]
fn metadata_of_an_unexpected_kind_is_refused() {
    let mut q = basic_query();
    let json = format!("{{\"stray\": 1, {}, {}, \"x\": \"y\"}}", BASIC_PROVIDERS, BASIC_NETWORK);
    let (r, _, notices) = rows_of(&mut q, &json);
    assert!(r.is_ok());
    assert_eq!(notices.keys, vec![String::from("stray"), String::from("x")]);
    let mut q = basic_query();
    let json = format!("{{\"a\": 1, {}, {}}}", BASIC_PROVIDERS, BASIC_NETWORK);
    assert!(rows_of(&mut q, &json).0.is_ok());
}

#[test]
fn missing_group_id_lets_the_run_complete_with_a_non_fatal_error() {
    let providers = r#""provider_references": [
        {"provider_groups": [{"npi": [55], "tin": {"type": "ein", "value": "5"}}]},
        {"provider_group_id": 11,
         "provider_groups": [{"npi": [1701], "tin": {"type": "ein", "value": "101"}}]}
    ]"#;
    let mut q = basic_query();
    q.providers.push(Provider::new(55));
    let (r, out, _) = rows_of(&mut q, &document(providers, BASIC_NETWORK));
    match r {
        Err(Failure::NonFatal(e)) => {
            assert_eq!(e.message(), "Non-fatal: Non fatal error in asa::process_provider_refs")
        }
        _ => panic!("a non-fatal error was owed"),
    }
    assert_eq!(
        out,
        format!(
            "{}{}",
            HEADER,
            "1701,ein,101,11,alpha,Item 1,Type 1,2022,CODE 1,Item 1,neg type 1,9.99,9999-12-31,A B C ,class 1,null\n"
        )
    );
}

#[test]
fn in_network_filters_by_the_code_in_upper_case() {
    let json = r#"[
        {"billing_code": "ab1", "name": "kept", "negotiated_rates": [
            {"provider_references": [11], "negotiated_prices": [{"negotiated_rate": 1}]}]},
        {"billing_code": "ab2", "name": "dropped", "negotiated_rates": [
            {"provider_references": [11], "negotiated_prices": [{"negotiated_rate": 2}]}]},
        {"name": "no code", "negotiated_rates": [
            {"provider_references": [11], "negotiated_prices": [{"negotiated_rate": 3}]}]},
        {"billing_code": "AB1", "name": "no rates"}
    ]"#;
    let mut q = Query::new();
    let mut p = Provider::new(1701);
    p.group_id = Some(11);
    p.tin_type = Some(String::from("ein"));
    p.tin_value = Some(String::from("101"));
    q.providers.push(p);
    q.codes.push(Code::new(&String::from("CPT"), &String::from("Ab1")));
    let mut source = EventSource::new(json.as_bytes());
    let mut out = String::from("before\n");
    let mut notices = Notices::new();
    assert_eq!(process_in_network(&mut source, &mut q, &mut out, &mut notices), Ok(()));
    assert_eq!(
        out,
        format!(
            "before\n{}{}",
            HEADER, "1701,ein,101,11,null,kept,null,null,AB1,null,null,1,null,null,null,null\n"
        )
    );
    assert!(q.providers[0].recorded);
    // The code type of the element is `null`, which is not the type of the query.
    assert!(!q.codes[0].recorded);
    assert_eq!(source.next_event(), None);
}

#[test]
fn in_network_fails_on_a_string_without_a_key() {
    let mut q = basic_query();
    let mut source = EventSource::new(b"[\"x\"]");
    let mut out = String::new();
    let mut notices = Notices::new();
    assert_eq!(
        process_in_network(&mut source, &mut q, &mut out, &mut notices),
        Err(Fatal::UndefinedState)
    );
}

#[test]
fn print_header_writes_the_header_line() {
    let mut out = String::from("x");
    print_header(&mut out);
    assert_eq!(out, format!("x{}", HEADER));
}

#[test]
fn print_record_writes_rates_references_tuples_and_prices_in_order() {
    let mut q = Query::new();
    for (npi, gid, tin) in [(1, 20, "a"), (2, 10, "b"), (3, 20, "c")] {
        let mut p = Provider::new(npi);
        p.group_id = Some(gid);
        p.tin_type = Some(String::from("ein"));
        p.tin_value = Some(String::from(tin));
        q.providers.push(p);
    }
    q.codes.push(Code::new(&String::from("t"), &String::from("c1")));
    let ref_map = q.make_ref_map();
    let mut cheap = Price::new_null();
    cheap.negotiated_rate = String::from("1");
    let mut dear = Price::new_null();
    dear.negotiated_rate = String::from("2");
    let mut first = Rate::new();
    first.provider_references = vec![20, 10];
    first.negotiated_prices = vec![cheap.clone(), dear];
    let mut second = Rate::new();
    second.provider_references = vec![10];
    second.negotiated_prices = vec![cheap];
    let mut network = Network::new();
    network.billing_code = String::from("C1");
    network.billing_code_type = String::from("T");
    network.negotiated_rates = Some(vec![first, second]);
    network.push_defaults();
    let mut out = String::new();
    print_record(&network, &mut q, &ref_map, &mut out);
    let net = "null,null,T,null,C1,null";
    assert_eq!(
        out,
        format!(
            "1,ein,a,20,{n},null,1,null,null,null,null\n\
             1,ein,a,20,{n},null,2,null,null,null,null\n\
             3,ein,c,20,{n},null,1,null,null,null,null\n\
             3,ein,c,20,{n},null,2,null,null,null,null\n\
             2,ein,b,10,{n},null,1,null,null,null,null\n\
             2,ein,b,10,{n},null,2,null,null,null,null\n\
             2,ein,b,10,{n},null,1,null,null,null,null\n",
            n = net
        )
    );
    assert!(q.providers.iter().all(|p| p.recorded));
    assert!(q.codes[0].recorded);
}

#[test]
fn meta_is_shown_when_the_fourth_field_is_filled() {
    let mut meta = Meta::new();
    let mut notices = Notices::new();
    meta.add("version", "1", &mut notices);
    meta.add("version", "2", &mut notices);
    meta.add("last_updated_on", "today", &mut notices);
    meta.add("reporting_entity_type", "kind", &mut notices);
    assert_eq!(meta.count(), 3);
    assert!(notices.lines.is_empty());
    assert_eq!(
        meta.e_print(),
        vec![
            String::from("reporting_entity_type: kind"),
            String::from("last_updated_on: today"),
            String::from("version: 2"),
        ]
    );
    meta.add("reporting_entity_name", "name", &mut notices);
    assert_eq!(meta.count(), 4);
    assert_eq!(notices.lines.len(), 4);
    assert_eq!(notices.lines[0], "reporting_entity_name: name");
    meta.add("reporting_entity_name", "other", &mut notices);
    assert_eq!(notices.lines.len(), 4);
}

#[test]
fn cli_buffer_size_defaults_to_128_mib() {
    let mut cli = Cli {
        input_path: std::path::PathBuf::from("query"),
        data_path: std::path::PathBuf::from("data.json.gz"),
        buff_size: None,
    };
    assert_eq!(cli.buffer_size(), 134217728);
    assert_eq!(DEFAULT_BUFF_SIZE, 134217728);
    cli.buff_size = Some(256);
    assert_eq!(cli.buffer_size(), 256);
}

#[test]
fn a_key_that_repeats_in_an_element_adds_to_the_field() {
    let network = r#""in_network": [
        {"billing_code": "Code 1", "name": "Item", "name": " 1",
         "negotiated_rates": [
            {"provider_references": [11],
             "negotiated_prices": [{"negotiated_rate": 1, "negotiated_rate": "2"}]}]}
    ]"#;
    let mut q = basic_query();
    let (r, out, _) = rows_of(&mut q, &document(BASIC_PROVIDERS, network));
    assert!(r.is_ok());
    assert_eq!(
        out,
        format!(
            "{}{}",
            HEADER, "1701,ein,101,11,null,Item 1,null,null,CODE 1,null,null,12,null,null,null,null\n"
        )
    );
}

#[test]
fn an_element_without_rates_of_the_query_is_passed_over() {
    let network = r#""in_network": [
        {"billing_code": "Code 1", "name": "other group",
         "negotiated_rates": [
            {"provider_references": [12],
             "negotiated_prices": [{"negotiated_rate": 1}]}],
         "description": "never read"},
        {"name": "kept", "billing_code": "code 1",
         "negotiated_rates": [
            {"provider_references": [12, 11],
             "negotiated_prices": [{"negotiated_rate": 2}]}]},
        {"billing_code": "Code 1", "name": "no prices",
         "negotiated_rates": [{"provider_references": [11]}]}
    ]"#;
    let mut q = basic_query();
    let (r, out, _) = rows_of(&mut q, &document(BASIC_PROVIDERS, network));
    assert!(r.is_ok());
    assert_eq!(
        out,
        format!(
            "{}{}",
            HEADER, "1701,ein,101,11,null,kept,null,null,CODE 1,null,null,2,null,null,null,null\n"
        )
    );
}

#[test]
fn no_header_is_written_for_an_element_without_a_row() {
    let network = r#""in_network": [
        {"billing_code": "Code 1", "name": "no prices",
         "negotiated_rates": [{"provider_references": [11]}]}
    ]"#;
    let mut q = basic_query();
    let (r, out, _) = rows_of(&mut q, &document(BASIC_PROVIDERS, network));
    assert!(r.is_ok());
    assert_eq!(out, "");
    // The reference and the code of the element are recorded all the same.
    assert!(q.providers[0].recorded);
}

#[test]
fn the_header_comes_just_before_the_first_row() {
    let network = r#""in_network": [
        {"billing_code": "Code 1", "name": "no prices",
         "negotiated_rates": [{"provider_references": [11]}]},
        {"billing_code": "Code 1", "name": "priced",
         "negotiated_rates": [
            {"provider_references": [11], "negotiated_prices": [{"negotiated_rate": 3}]}]}
    ]"#;
    let mut q = basic_query();
    let (r, out, _) = rows_of(&mut q, &document(BASIC_PROVIDERS, network));
    assert!(r.is_ok());
    assert_eq!(
        out,
        format!(
            "{}{}",
            HEADER, "1701,ein,101,11,null,priced,null,null,CODE 1,null,null,3,null,null,null,null\n"
        )
    );
}
