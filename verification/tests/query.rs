use mrfy::input::{read_input, InputError};
use mrfy::query::{Code, Provider, Query};
use mrfy::text::{decimal_string, parse_u64};

fn lines(text: &[&str]) -> Vec<String> {
    let mut v = Vec::new();
    for l in text {
        v.push(String::from(*l));
    }
    v
}

#[test]
fn test_basic_input_read() {
    // Tests a non-defective basic input
    let input = lines(&["npi", "    1234567", "", "cpt", "    99995", "    0001", "Efile", "    123"]);

    let result = read_input(&input);

    let mut q = Query::new();
    let p = Provider::new(1234567);
    q.providers.push(p);

    let c1 = Code::new(&String::from("cpt"), &String::from("99995"));
    let c2 = Code::new(&String::from("cpt"), &String::from("0001"));
    let c3 = Code::new(&String::from("Efile"), &String::from("123"));
    q.codes.push(c1);
    q.codes.push(c2);
    q.codes.push(c3);

    let q_from_file = result.unwrap();

    assert_eq!(q_from_file, q);
}

#[test]
#[should_panic(
    expected = "Input file not formatted correctly, codes came before either billing type or npi specifier"
)]
fn test_input_file_codes_ambiguous() {
    // Tests a case where the user forgot to specify the code type for the items
    let input = lines(&["    12335", "", "    9999912"]);
    match read_input(&input) {
        Err(InputError::ItemBeforeHeader) => panic!(
            "Input file not formatted correctly, codes came before either billing type or npi specifier"
        ),
        _ => {}
    }
}

#[test]
fn input_with_an_npi_that_is_no_number_is_refused() {
    let input = lines(&["npi", "  12a"]);
    assert_eq!(read_input(&input), Err(InputError::BadNpi));
    let input = lines(&["npi", " "]);
    assert_eq!(read_input(&input), Err(InputError::BadNpi));
    let input = lines(&["npi", "  18446744073709551616"]);
    assert_eq!(read_input(&input), Err(InputError::BadNpi));
}

#[test]
fn input_headers_and_items_are_trimmed() {
    let input = lines(&["CPT  ", " 99213\t", "npi ", "  18446744073709551615  ", "*", " *"]);
    let q = read_input(&input).unwrap();
    assert_eq!(q.providers, vec![Provider::new(18446744073709551615)]);
    assert_eq!(
        q.codes,
        vec![
            Code::new(&String::from("CPT"), &String::from("99213")),
            Code::new(&String::from("*"), &String::from("*")),
        ]
    );
}

#[test]
fn input_without_lines_is_an_empty_query() {
    let q = read_input(&Vec::new()).unwrap();
    assert_eq!(q, Query::new());
}

#[test]
fn decimal_string_writes_the_digits() {
    assert_eq!(decimal_string(0), "0");
    assert_eq!(decimal_string(7), "7");
    assert_eq!(decimal_string(10), "10");
    assert_eq!(decimal_string(1701), "1701");
    assert_eq!(decimal_string(18446744073709551615), "18446744073709551615");
}

#[test]
fn parse_u64_reads_decimal_digits_only() {
    assert_eq!(parse_u64("0"), Some(0));
    assert_eq!(parse_u64("007"), Some(7));
    assert_eq!(parse_u64("+12"), Some(12));
    assert_eq!(parse_u64("18446744073709551615"), Some(18446744073709551615));
    assert_eq!(parse_u64("18446744073709551616"), None);
    assert_eq!(parse_u64(""), None);
    assert_eq!(parse_u64("+"), None);
    assert_eq!(parse_u64("-1"), None);
    assert_eq!(parse_u64("1.0"), None);
    assert_eq!(parse_u64("1e3"), None);
    assert_eq!(parse_u64(" 1"), None);
    assert_eq!(parse_u64("١"), None);
}

#[test]
fn parse_u64_agrees_with_the_standard_parser() {
    let samples = [
        "0", "1", "+1", "++1", "+", "", "-0", "00", "18446744073709551615", "18446744073709551616",
        "99999999999999999999", "12 ", "1_000", "0x10", "42",
    ];
    for s in samples {
        assert_eq!(parse_u64(s), s.parse::<u64>().ok());
    }
}

#[test]
fn npi_set_holds_each_npi_once() {
    let mut q = Query::new();
    q.providers.push(Provider::new(5));
    q.providers.push(Provider::new(6));
    q.providers.push(Provider::new(5));
    let set = q.make_npi_set();
    assert_eq!(set.len(), 2);
    assert!(set.contains(&5));
    assert!(set.contains(&6));
    assert!(!set.contains(&7));
    assert_eq!(q.providers.len(), 3);
}

#[test]
fn code_set_holds_the_codes_in_upper_case() {
    let mut q = Query::new();
    q.codes.push(Code::new(&String::from("cpt"), &String::from("a12b")));
    q.codes.push(Code::new(&String::from("hcpcs"), &String::from("A12B")));
    q.codes.push(Code::new(&String::from("x"), &String::from("é*z")));
    let set = q.make_code_set();
    assert!(set.contains("A12B"));
    assert!(!set.contains("a12b"));
    assert!(set.contains("é*Z"));
    assert!(!set.contains("*"));
}

#[test]
fn ref_map_holds_the_tuples_of_complete_providers() {
    let mut q = Query::new();
    let mut a = Provider::new(1701);
    a.group_id = Some(11);
    a.tin_type = Some(String::from("ein"));
    a.tin_value = Some(String::from("101"));
    let mut b = Provider::new(1702);
    b.group_id = Some(12);
    b.tin_type = Some(String::from("npi"));
    b.tin_value = Some(String::from("1702"));
    let mut c = Provider::new(1703);
    c.group_id = Some(11);
    c.tin_type = Some(String::from("ein"));
    c.tin_value = Some(String::from("103"));
    let mut d = Provider::new(1704);
    d.group_id = Some(13);
    d.tin_type = Some(String::from("ein"));
    let e = Provider::new(1705);
    q.providers = vec![a, b, c, d, e];
    let m = q.make_ref_map();
    assert_eq!(m.len(), 2);
    assert_eq!(m[&11], vec![String::from("1701,ein,101"), String::from("1703,ein,103")]);
    assert_eq!(m[&12], vec![String::from("1702,npi,1702")]);
    assert!(!m.contains_key(&13));
}

#[test]
fn log_ref_records_the_providers_of_the_group() {
    let mut q = Query::new();
    let mut a = Provider::new(1);
    a.group_id = Some(11);
    let mut b = Provider::new(2);
    b.group_id = Some(12);
    let c = Provider::new(3);
    q.providers = vec![a, b, c];
    q.log_ref(11);
    assert!(q.providers[0].recorded);
    assert!(!q.providers[1].recorded);
    assert!(!q.providers[2].recorded);
    let once = q.clone();
    q.log_ref(11);
    assert_eq!(q, once);
}

#[test]
fn log_code_twice_is_log_code_once() {
    let mut q = Query::new();
    q.codes.push(Code::new(&String::from("CPT"), &String::from("99481")));
    q.codes.push(Code::new(&String::from("*"), &String::from("*")));
    q.codes.push(Code::new(&String::from("HCPCS"), &String::from("*")));
    q.codes.push(Code::new(&String::from("cpt"), &String::from("99482")));
    q.log_code(&String::from("99481"), &String::from("cpt"));
    let once = q.clone();
    assert!(once.codes[0].recorded);
    assert!(once.codes[1].recorded);
    assert!(!once.codes[2].recorded);
    assert!(!once.codes[3].recorded);
    q.log_code(&String::from("99481"), &String::from("cpt"));
    assert_eq!(q, once);
    q.log_code(&String::from("99481"), &String::from("cpt"));
    assert_eq!(q, once);
}

#[test]
fn log_code_with_a_wildcard_value_goes_by_the_type() {
    let mut q = Query::new();
    q.codes.push(Code::new(&String::from("HCPCS"), &String::from("*")));
    q.codes.push(Code::new(&String::from("*"), &String::from("*")));
    q.log_code(&String::from("anything"), &String::from("hcpcs"));
    assert!(q.codes[0].recorded);
    assert!(q.codes[1].recorded);
    let mut q = Query::new();
    q.codes.push(Code::new(&String::from("HCPCS"), &String::from("*")));
    q.codes.push(Code::new(&String::from("*"), &String::from("*")));
    q.log_code(&String::from("anything"), &String::from("cpt"));
    assert!(!q.codes[0].recorded);
    assert!(q.codes[1].recorded);
}

#[test]
fn stat_providers_tells_whether_a_group_is_known() {
    let mut q = Query::new();
    assert!(!q.stat_providers());
    q.providers.push(Provider::new(1));
    assert!(!q.stat_providers());
    let mut p = Provider::new(2);
    p.group_id = Some(0);
    q.providers.push(p);
    assert!(q.stat_providers());
}

#[test]
fn warnings_name_what_had_no_match() {
    let mut q = Query::new();
    let mut a = Provider::new(1);
    a.group_id = Some(11);
    a.tin_type = Some(String::from("ein"));
    a.tin_value = Some(String::from("10\"1"));
    a.recorded = true;
    let mut b = Provider::new(1);
    b.group_id = Some(12);
    let c = Provider::new(2);
    let d = Provider::new(2);
    q.providers = vec![a, b, c, d];
    let mut hit = Code::new(&String::from("CPT"), &String::from("1"));
    hit.recorded = true;
    q.codes.push(hit);
    q.codes.push(Code::new(&String::from("CPT"), &String::from("2")));
    let before = q.clone();
    let lines = q.warn_not_recorded();
    assert_eq!(q, before);
    assert_eq!(
        lines,
        vec![
            String::from(
                "\nWARNING: No match found for Provider\n  npi: 1\n  group_id: Some(12)\n  tin_type: None\n  tin_value: None\n"
            ),
            String::from(
                "\nWARNING: No match found for Provider\n  npi: 2\n  group_id: None\n  tin_type: None\n  tin_value: None\n"
            ),
            String::from(
                "\nWARNING: No match found for Provider\n  npi: 2\n  group_id: None\n  tin_type: None\n  tin_value: None\n"
            ),
            String::from("WARNING: Zero matches found for npi: 2"),
            String::from("\nWARNING: No match found for Code\n  Type: CPT   Value: 2"),
        ]
    );
    assert_eq!(
        before.providers[0].eprint_no_match(),
        "\nWARNING: No match found for Provider\n  npi: 1\n  group_id: Some(11)\n  tin_type: Some(\"ein\")\n  tin_value: Some(\"10\\\"1\")\n"
    );
}

#[test]
fn input_items_may_be_indented_with_any_white_space() {
    let input = lines(&["npi", "\t1234567", "CPT", "\u{a0}99213", "\t 0001"]);
    let q = read_input(&input).unwrap();
    assert_eq!(q.providers, vec![Provider::new(1234567)]);
    assert_eq!(
        q.codes,
        vec![
            Code::new(&String::from("CPT"), &String::from("99213")),
            Code::new(&String::from("CPT"), &String::from("0001")),
        ]
    );
    let input = lines(&["\t12345"]);
    assert_eq!(read_input(&input), Err(InputError::ItemBeforeHeader));
}
