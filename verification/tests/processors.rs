use mrfy::error::{Failure, Fatal};
use mrfy::event::{Event, EventSource};
use mrfy::notices::Notices;
use mrfy::prices::process_negotiated_prices;
use mrfy::providers::{process_provider_groups, process_provider_refs};
use mrfy::query::{Code, Provider, Query};
use mrfy::rates::process_negotiated_rates;
use mrfy::records::{Price, Rate};
use mrfy::skip::{bypass_key, ff_to_next_obj, skip_array};

#[test]
fn test_process_provider_refs_basic() {
    let json = r#"
            [{"provider_group_id":12345,
             "provider_groups":[{"npi":[21437,3118434,4107354],
                                 "tin":{"type":"ein","value":"881109921"}
                                }
                               ]
             },
             {"provider_group_id":7777777,
             "provider_groups":[{"npi":[200000000,3118434,4107354],
                                 "tin":{"type":"ein","value":"999999999"}
                                }
                               ]
             },
             {"provider_group_id":1000000000,
             "provider_groups":[{"npi":[1221,345027,3547931],
                                 "tin":{"type":"ein","value":"555555555"}
                                }
                               ]
             },
             {"provider_group_id":22222,
             "provider_groups":[{"npi":[11111,51027,1701],
                                 "tin":{"type":"ein","value":"9000"}
                                },
                                {"npi":[1701],
                                 "tin":{"type":"ein","value":"3030"}
                                }
                               ]
             },
             {"provider_group_id":1789,
             "provider_groups":[{"npi":[55,5555,3001],
                                 "tin":{"type":"ein","value":null}
                                }
                                
                               ]
             }

        ]"#;

    let mut parser = EventSource::new(json.as_bytes());

    // Make query structs
    let missing = Provider::new(3001); // tin value missing in the data
    let absent = Provider::new(100001000); // not in the data
    let twice = Provider::new(1701);
    let once = Provider::new(21437);
    let split = Provider::new(3118434);

    let mut p_test: Vec<Provider> = Vec::new();
    p_test.push(missing);
    p_test.push(absent);
    p_test.push(twice);
    p_test.push(once);
    p_test.push(split);

    let mut q_test = Query::new();

    q_test.providers = p_test;

    let mut notices = Notices::new();

    // Process via function call to mutate
    let _ = process_provider_refs(&mut parser, &mut q_test, &mut notices);

    // Make Structs to compare to

    let mut c_ = Provider::new(3001); // tin value missing
    let c0 = Provider::new(100001000); // not in the data
    let mut c1 = Provider::new(1701); // same gid, different tin values
    let mut c2 = Provider::new(21437); // In data one match
    let mut c3 = Provider::new(3118434); // different gid
    let mut c4 = Provider::new(3118434);
    let mut c5 = Provider::new(1701); // same gid, different tin values

    let t_type = Some(String::from("ein"));

    c_.tin_type = t_type.clone();
    c1.tin_type = t_type.clone();
    c2.tin_type = t_type.clone();
    c3.tin_type = t_type.clone();
    c4.tin_type = t_type.clone();
    c5.tin_type = t_type.clone();

    c_.group_id = Some(1789);
    c_.tin_value = Some(String::from("null"));

    c1.tin_value = Some(String::from("9000"));
    c1.group_id = Some(22222);

    c2.tin_value = Some(String::from("881109921"));
    c2.group_id = Some(12345);

    c3.tin_value = Some(String::from("881109921"));
    c3.group_id = Some(12345);

    c4.tin_value = Some(String::from("999999999"));
    c4.group_id = Some(7777777);

    c5.tin_value = Some(String::from("3030"));
    c5.group_id = Some(22222);

    let mut check = Vec::new();
    check.push(c_);
    check.push(c0);
    check.push(c1);
    check.push(c2);
    check.push(c3);
    check.push(c4);
    check.push(c5);

    assert_eq!(check, q_test.providers);
}

#[test]
fn test_log_code() {
    let c = String::from("99481");
    let t = String::from("CPT");

    let mut codes: Vec<Code> = Vec::new();
    let mut check: Vec<Code> = Vec::new();

    let c0: Code = Code::new(&t, &c); // Code and Code type match.
    let c1: Code = Code::new(&String::from("LOCAL"), &c); // Code matches, but type does not.
    let c2: Code = Code::new(&String::from("cpT"), &c); // Code and code type match (wrong case)
    let c3: Code = Code::new(&String::from("*"), &c); // Code matches, type is wildcard '*'
    let c4: Code = Code::new(&String::from("CPT"), &String::from("10003")); // Should not match at all

    // Push copies to check vector
    check.push(c0.clone());
    check.push(c1.clone());
    check.push(c2.clone());
    check.push(c3.clone());
    check.push(c4.clone());

    // Manually mark recorded or not
    check[0].recorded = true;
    check[2].recorded = true;
    check[3].recorded = true;

    // Push codes to code vec
    codes.push(c0);
    codes.push(c1);
    codes.push(c2);
    codes.push(c3);
    codes.push(c4);

    let mut q = Query::new();
    q.codes = codes; // Move to Query to call log_code

    // Mutate codes to mark recorded
    let _ = q.log_code(&c, &t);

    assert_eq!(q.codes, check);
}

#[test]
fn test_proc_neg_prices() {
    let json = r#"[
             {
             "negotiated_type":"alpha",
             "negotiated_rate":498.21,
             "expiration_date":"9999-12-31",
             "service_code":["21","31"],
             "billing_class":"institutional"
             },

             {
             "negotiated_type":"beta",
             "negotiated_rate":505.77,
             "expiration_date":"9999-12-31",
             "service_code":[],
             "billing_class":null
             },

             {
             "negotiated_type":"gamma",
             "expiration_date":"9999-12-31",
             "service_code":["77"],
             "billing_class":"nope",
             "billing_code_modifier":"FSX"
             }

        ]"#;

    let mut parser = EventSource::new(json.as_bytes());
    let mut notices = Notices::new();

    let res = process_negotiated_prices(&mut parser, &mut notices);
    let prices = res.unwrap();

    let mut check: Vec<Price> = Vec::new();

    let mut alpha = Price::new();
    alpha.negotiated_type.push_str("alpha");
    alpha.negotiated_rate.push_str("498.21");
    alpha.expiration_date.push_str("9999-12-31");
    alpha.service_code.push_str("21 31 ");
    alpha.billing_class.push_str("institutional");

    let mut beta = Price::new();
    beta.negotiated_type.push_str("beta");
    beta.negotiated_rate.push_str("505.77");
    beta.expiration_date.push_str("9999-12-31");
    beta.service_code.push_str("null");
    beta.billing_class.push_str("null");

    let mut gamma = Price::new();
    gamma.negotiated_type.push_str("gamma");
    gamma.negotiated_rate.push_str("null");
    gamma.expiration_date.push_str("9999-12-31");
    gamma.service_code.push_str("77 ");
    gamma.billing_class.push_str("nope");
    gamma.billing_code_modifier.push_str("FSX");

    alpha.push_defaults();
    beta.push_defaults();
    gamma.push_defaults();

    check.push(alpha);
    check.push(beta);
    check.push(gamma);

    assert_eq!(prices, check);
    assert!(notices.keys.is_empty());
}

#[test]
fn event_source_hands_out_the_events_in_order() {
    let mut source = EventSource::new(b"{\"foo\": [1, \"a\", true, null]}");
    assert_eq!(source.next_event(), Some(Event::StartObject));
    assert_eq!(source.next_event(), Some(Event::ObjectKey(String::from("foo"))));
    assert_eq!(source.next_event(), Some(Event::StartArray));
    assert_eq!(source.next_event(), Some(Event::Number(String::from("1"))));
    assert_eq!(source.next_event(), Some(Event::String(String::from("a"))));
    assert_eq!(source.next_event(), Some(Event::Boolean(true)));
    assert_eq!(source.next_event(), Some(Event::Null));
    assert_eq!(source.next_event(), Some(Event::EndArray));
    assert_eq!(source.next_event(), Some(Event::EndObject));
    assert_eq!(source.next_event(), None);
    assert_eq!(source.next_event(), None);
}

#[test]
fn event_source_ends_at_a_syntax_error() {
    let mut source = EventSource::new(b"[1, }");
    assert_eq!(source.next_event(), Some(Event::StartArray));
    assert_eq!(source.next_event(), Some(Event::Number(String::from("1"))));
    assert_eq!(source.next_event(), None);
    assert_eq!(source.next_event(), None);
}

#[test]
fn bypass_key_passes_over_one_value() {
    let mut source = EventSource::new(b"[{\"a\": [1, {\"b\": 2}]}, [3, [4]], 5, 6]");
    assert_eq!(source.next_event(), Some(Event::StartArray));
    assert_eq!(bypass_key(&mut source), Ok(()));
    assert_eq!(bypass_key(&mut source), Ok(()));
    assert_eq!(bypass_key(&mut source), Ok(()));
    assert_eq!(source.next_event(), Some(Event::Number(String::from("6"))));
    // The end of an array in place of a value is malformed.
    assert_eq!(bypass_key(&mut source), Err(Fatal::MalformedInput));
}

#[test]
fn bypass_key_fails_at_the_end_of_the_input() {
    let mut source = EventSource::new(b"[{\"a\": 1");
    assert_eq!(source.next_event(), Some(Event::StartArray));
    assert_eq!(bypass_key(&mut source), Err(Fatal::MalformedInput));
    let mut empty = EventSource::new(b"");
    assert_eq!(bypass_key(&mut empty), Err(Fatal::MalformedInput));
}

#[test]
fn ff_to_next_obj_runs_to_the_end_of_the_object() {
    let mut source = EventSource::new(b"[{\"a\": {\"b\": [1]}, \"c\": [2, 3]}, 7]");
    assert_eq!(source.next_event(), Some(Event::StartArray));
    assert_eq!(source.next_event(), Some(Event::StartObject));
    let mut cb: u64 = 1;
    let mut sq: u64 = 1;
    assert_eq!(ff_to_next_obj(&mut source, &mut cb, &mut sq), Ok(()));
    assert_eq!(cb, 0);
    assert_eq!(sq, 1);
    assert_eq!(source.next_event(), Some(Event::Number(String::from("7"))));
    // No object is open: the end of the enclosing array is one bracket too many.
    let mut cb: u64 = 1;
    let mut sq: u64 = 0;
    assert_eq!(ff_to_next_obj(&mut source, &mut cb, &mut sq), Err(Fatal::MalformedInput));
}

#[test]
fn skip_array_runs_to_the_end_of_the_array() {
    let mut source = EventSource::new(b"[[1, [2, {\"a\": [3]}]], 8]");
    assert_eq!(source.next_event(), Some(Event::StartArray));
    assert_eq!(skip_array(&mut source, 0), Ok(()));
    assert_eq!(source.next_event(), Some(Event::Number(String::from("8"))));
    assert_eq!(skip_array(&mut source, 0), Err(Fatal::MalformedInput));
}

#[test]
fn prices_of_an_empty_array_are_one_null_price() {
    let mut source = EventSource::new(b"[]");
    let mut notices = Notices::new();
    let prices = process_negotiated_prices(&mut source, &mut notices).unwrap();
    assert_eq!(prices, vec![Price::new_null()]);
    assert_eq!(prices[0].negotiated_rate, "null");
}

#[test]
fn prices_keep_the_text_of_the_rate() {
    let mut source = EventSource::new(
        b"[{\"negotiated_rate\": 10.50}, {\"negotiated_rate\": \"7e2\"}, {\"negotiated_rate\": 0.10000000000000000001}]",
    );
    let mut notices = Notices::new();
    let prices = process_negotiated_prices(&mut source, &mut notices).unwrap();
    assert_eq!(prices.len(), 3);
    assert_eq!(prices[0].negotiated_rate, "10.50");
    assert_eq!(prices[1].negotiated_rate, "7e2");
    assert_eq!(prices[2].negotiated_rate, "0.10000000000000000001");
    assert_eq!(prices[0].negotiated_type, "null");
}

#[test]
fn prices_name_an_unknown_key_once() {
    let mut source = EventSource::new(
        b"[{\"extra\": {\"a\": [1]}, \"billing_class\": \"x\"}, {\"extra\": [2], \"billing_class\": \"y\"}]",
    );
    let mut notices = Notices::new();
    let prices = process_negotiated_prices(&mut source, &mut notices).unwrap();
    assert_eq!(prices.len(), 2);
    assert_eq!(prices[0].billing_class, "x");
    assert_eq!(prices[1].billing_class, "y");
    assert_eq!(notices.keys, vec![String::from("extra")]);
    assert_eq!(notices.lines, vec![String::from("Unsupported key extra found in Price")]);
}

#[test]
fn prices_fail_on_a_string_without_a_key() {
    let mut source = EventSource::new(b"[\"x\"]");
    let mut notices = Notices::new();
    assert_eq!(
        process_negotiated_prices(&mut source, &mut notices),
        Err(Fatal::UndefinedState)
    );
}

#[test]
fn prices_fail_at_the_end_of_the_input() {
    let mut source = EventSource::new(b"[{\"negotiated_type\": \"a\"}");
    let mut notices = Notices::new();
    assert_eq!(
        process_negotiated_prices(&mut source, &mut notices),
        Err(Fatal::MalformedInput)
    );
}

fn ref_map_of(groups: &[u64]) -> std::collections::HashMap<u64, Vec<String>> {
    let mut q = Query::new();
    for g in groups {
        let mut p = Provider::new(*g + 1000);
        p.group_id = Some(*g);
        p.tin_type = Some(String::from("ein"));
        p.tin_value = Some(String::from("9"));
        q.providers.push(p);
    }
    q.make_ref_map()
}

#[test]
fn rates_keep_the_references_of_the_query() {
    let json = r#"[
        {"provider_references": [1, 2, 3], "negotiated_prices": [{"negotiated_rate": 5}]},
        {"provider_references": [4, 5], "negotiated_prices": [{"negotiated_rate": 6}]},
        {"negotiated_prices": [{"negotiated_rate": 7}], "provider_references": [3, 9]}
    ]"#;
    let ref_map = ref_map_of(&[2, 3]);
    let mut source = EventSource::new(json.as_bytes());
    let mut notices = Notices::new();
    let rates = process_negotiated_rates(&mut source, &ref_map, &mut notices).unwrap().unwrap();
    assert_eq!(rates.len(), 2);
    assert_eq!(rates[0].provider_references, vec![2, 3]);
    assert_eq!(rates[0].negotiated_prices[0].negotiated_rate, "5");
    assert_eq!(rates[1].provider_references, vec![3]);
    assert_eq!(rates[1].negotiated_prices[0].negotiated_rate, "7");
    assert_eq!(source.next_event(), None);
}

#[test]
fn rates_without_a_reference_of_the_query_are_none() {
    let json = r#"[{"provider_references": [4, 5], "negotiated_prices": [{"negotiated_rate": 6}]}]"#;
    let ref_map = ref_map_of(&[2, 3]);
    let mut source = EventSource::new(json.as_bytes());
    let mut notices = Notices::new();
    let rates: Option<Vec<Rate>> =
        process_negotiated_rates(&mut source, &ref_map, &mut notices).unwrap();
    assert_eq!(rates, None);
}

#[test]
fn rates_fail_on_a_reference_that_is_no_integer() {
    let ref_map = ref_map_of(&[2]);
    let mut notices = Notices::new();
    let mut source = EventSource::new(b"[{\"provider_references\": [2.5]}]");
    assert_eq!(
        process_negotiated_rates(&mut source, &ref_map, &mut notices),
        Err(Fatal::BadNumber)
    );
    let mut source = EventSource::new(b"[{\"provider_references\": [-2]}]");
    assert_eq!(
        process_negotiated_rates(&mut source, &ref_map, &mut notices),
        Err(Fatal::BadNumber)
    );
    let mut source = EventSource::new(b"[{\"provider_references\": [18446744073709551616]}]");
    assert_eq!(
        process_negotiated_rates(&mut source, &ref_map, &mut notices),
        Err(Fatal::BadNumber)
    );
}

#[test]
fn provider_groups_fill_the_tin_and_wait_for_the_group() {
    let json = r#"[{"npi": [7, 8], "tin": {"type": "ein", "value": "12"}}, {"npi": [8], "tin": {"type": "npi", "value": "8"}}]"#;
    let mut q = Query::new();
    q.providers.push(Provider::new(8));
    let mut source = EventSource::new(json.as_bytes());
    let mut notices = Notices::new();
    assert_eq!(process_provider_groups(&mut source, &mut q, &mut notices), Ok(()));
    assert_eq!(q.providers.len(), 2);
    assert_eq!(q.providers[0].npi, 8);
    assert_eq!(q.providers[0].tin_type, Some(String::from("ein")));
    assert_eq!(q.providers[0].tin_value, Some(String::from("12")));
    assert_eq!(q.providers[0].group_id, None);
    assert!(q.providers[0].needs_gid);
    assert!(!q.providers[0].needs_tin);
    assert_eq!(q.providers[1].npi, 8);
    assert_eq!(q.providers[1].tin_type, Some(String::from("npi")));
    assert_eq!(q.providers[1].tin_value, Some(String::from("8")));
    assert!(q.providers[1].needs_gid);
}

#[test]
fn provider_groups_fail_on_a_value_out_of_place() {
    let mut notices = Notices::new();
    let mut q = Query::new();
    q.providers.push(Provider::new(8));
    let mut source = EventSource::new(b"[{\"npi\": [\"8\"]}]");
    assert_eq!(
        process_provider_groups(&mut source, &mut q, &mut notices),
        Err(Fatal::UndefinedState)
    );
    let mut source = EventSource::new(b"[{\"tin\": {\"type\": 8}}]");
    assert_eq!(
        process_provider_groups(&mut source, &mut q, &mut notices),
        Err(Fatal::UndefinedState)
    );
    let mut source = EventSource::new(b"[{\"npi\": [8.5]}]");
    assert_eq!(
        process_provider_groups(&mut source, &mut q, &mut notices),
        Err(Fatal::BadNumber)
    );
}

#[test]
fn provider_refs_without_a_group_id_are_a_non_fatal_error() {
    let json = r#"[{"provider_groups": [{"npi": [8], "tin": {"type": "ein", "value": "12"}}]},
                   {"provider_group_id": 4, "provider_groups": [{"npi": [9], "tin": {"type": "ein", "value": "13"}}]}]"#;
    let mut q = Query::new();
    q.providers.push(Provider::new(8));
    q.providers.push(Provider::new(9));
    let mut source = EventSource::new(json.as_bytes());
    let mut notices = Notices::new();
    let r = process_provider_refs(&mut source, &mut q, &mut notices);
    match r {
        Err(Failure::NonFatal(e)) => {
            assert_eq!(e.0, "Non fatal error in asa::process_provider_refs");
            assert_eq!(e.message(), "Non-fatal: Non fatal error in asa::process_provider_refs");
        }
        _ => panic!("a non-fatal error was owed"),
    }
    // The walk was not cut short.
    assert_eq!(q.providers[0].group_id, None);
    assert_eq!(q.providers[0].tin_value, Some(String::from("12")));
    assert!(!q.providers[0].needs_gid);
    assert_eq!(q.providers[1].group_id, Some(4));
    assert_eq!(q.providers[1].tin_value, Some(String::from("13")));
    assert_eq!(
        notices.lines,
        vec![String::from("Error: provider group id not specified in datafile!")]
    );
}

#[test]
fn provider_refs_fail_on_a_group_id_that_is_no_integer() {
    let mut q = Query::new();
    let mut notices = Notices::new();
    let mut source = EventSource::new(b"[{\"provider_group_id\": 1.5}]");
    match process_provider_refs(&mut source, &mut q, &mut notices) {
        Err(Failure::Fatal(f)) => assert_eq!(f, Fatal::BadNumber),
        _ => panic!("a fatal error was owed"),
    }
}

#[test]
fn prices_take_a_number_for_the_negotiated_rate_only() {
    let mut source = EventSource::new(b"[{\"negotiated_rate\":5,\"billing_class\":7}]");
    let mut notices = Notices::new();
    let prices = process_negotiated_prices(&mut source, &mut notices).unwrap();
    assert_eq!(prices.len(), 1);
    assert_eq!(prices[0].negotiated_type, "null");
    assert_eq!(prices[0].negotiated_rate, "5");
    assert_eq!(prices[0].expiration_date, "null");
    assert_eq!(prices[0].service_code, "null");
    assert_eq!(prices[0].billing_class, "null");
    assert_eq!(prices[0].billing_code_modifier, "null");
}

#[test]
fn prices_keep_the_text_of_any_number() {
    for text in ["9.99", "100.990", "1e3", "-0.5", "12345678901234567890.000000000000000001"] {
        let json = format!("[{{\"negotiated_rate\": {}}}]", text);
        let mut source = EventSource::new(json.as_bytes());
        let mut notices = Notices::new();
        let prices = process_negotiated_prices(&mut source, &mut notices).unwrap();
        assert_eq!(prices.len(), 1);
        assert_eq!(prices[0].negotiated_rate, text);
    }
}

#[test]
fn rates_that_are_passed_over_leave_no_prices_behind() {
    let json = r#"[
        {"negotiated_prices": [{"negotiated_rate": 1}], "provider_references": [9]},
        {"provider_references": [2]}
    ]"#;
    let ref_map = ref_map_of(&[2]);
    let mut source = EventSource::new(json.as_bytes());
    let mut notices = Notices::new();
    let rates = process_negotiated_rates(&mut source, &ref_map, &mut notices).unwrap().unwrap();
    assert_eq!(rates.len(), 1);
    assert_eq!(rates[0].provider_references, vec![2]);
    assert!(rates[0].negotiated_prices.is_empty());
}
