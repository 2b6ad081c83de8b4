use soroban_budget_assert::csv_report::{reports_to_csv, CostReport};

#[test]
fn csv_output_without_check_has_four_columns() {
    let reports = vec![
        CostReport {
            package: "my-contract".to_string(),
            function: "do_work".to_string(),
            metric: "CPU Instructions",
            value: Some(1_000_000),
            limit: None,
            pass: None,
        },
        CostReport {
            package: "my-contract".to_string(),
            function: "do_work".to_string(),
            metric: "Read Bytes",
            value: Some(2_048),
            limit: None,
            pass: None,
        },
    ];
    let csv = reports_to_csv(&reports, false);
    let expected = "package,function,metric,value\nmy-contract,do_work,CPU Instructions,1000000\nmy-contract,do_work,Read Bytes,2048\n";
    assert_eq!(csv, expected);
}

#[test]
fn csv_output_with_check_has_six_columns() {
    let reports = vec![
        CostReport {
            package: "my-contract".to_string(),
            function: "do_work".to_string(),
            metric: "CPU Instructions",
            value: Some(1_000_000),
            limit: Some(5_000_000),
            pass: Some(true),
        },
        CostReport {
            package: "my-contract".to_string(),
            function: "do_work".to_string(),
            metric: "Write Bytes",
            value: Some(4_096),
            limit: Some(1_000),
            pass: Some(false),
        },
    ];
    let csv = reports_to_csv(&reports, true);
    let expected = "package,function,metric,value,limit,pass\nmy-contract,do_work,CPU Instructions,1000000,5000000,true\nmy-contract,do_work,Write Bytes,4096,1000,false\n";
    assert_eq!(csv, expected);
}

#[test]
fn csv_output_without_check_excludes_null_values() {
    let reports = vec![
        CostReport {
            package: "my-contract".to_string(),
            function: "do_work".to_string(),
            metric: "CPU Instructions",
            value: None,
            limit: None,
            pass: None,
        },
        CostReport {
            package: "my-contract".to_string(),
            function: "do_work".to_string(),
            metric: "Read Bytes",
            value: Some(2_048),
            limit: None,
            pass: None,
        },
    ];
    let csv = reports_to_csv(&reports, false);
    let expected = "package,function,metric,value\nmy-contract,do_work,Read Bytes,2048\n";
    assert_eq!(csv, expected);
}

#[test]
fn csv_output_with_check_includes_simulation_failures() {
    let reports = vec![CostReport {
        package: "my-contract".to_string(),
        function: "do_work".to_string(),
        metric: "CPU Instructions",
        value: None,
        limit: Some(5_000_000),
        pass: Some(false),
    }];
    let csv = reports_to_csv(&reports, true);
    let expected = "package,function,metric,value,limit,pass\nmy-contract,do_work,CPU Instructions,,5000000,false\n";
    assert_eq!(csv, expected);
}

#[test]
fn csv_output_empty_reports_produces_header_only() {
    let reports: Vec<CostReport> = vec![];
    let csv = reports_to_csv(&reports, false);
    assert_eq!(csv, "package,function,metric,value\n");
}

#[test]
fn csv_output_check_empty_reports_produces_header_only() {
    let reports: Vec<CostReport> = vec![];
    let csv = reports_to_csv(&reports, true);
    assert_eq!(csv, "package,function,metric,value,limit,pass\n");
}

#[test]
fn csv_output_empty_package_and_function_names() {
    let reports = vec![CostReport {
        package: "".to_string(),
        function: "".to_string(),
        metric: "CPU Instructions",
        value: Some(0),
        limit: None,
        pass: None,
        ..Default::default()
    }];
    let csv = reports_to_csv(&reports, false);
    assert!(csv.contains(",,CPU Instructions,0\n") || csv.contains(",,CPU Instructions,0\r\n"));
}

#[test]
fn csv_output_check_mode_zero_value_zero_limit_pass() {
    let reports = vec![CostReport {
        package: "pkg".to_string(),
        function: "fn".to_string(),
        metric: "Read Bytes",
        value: Some(0),
        limit: Some(0),
        pass: Some(true),
        ..Default::default()
    }];
    let csv = reports_to_csv(&reports, true);
    assert!(csv.contains("pkg,fn,Read Bytes,0,0,true"));
}

#[test]
fn csv_output_check_mode_value_one_above_zero_limit_fails() {
    let reports = vec![CostReport {
        package: "pkg".to_string(),
        function: "fn".to_string(),
        metric: "Write Bytes",
        value: Some(1),
        limit: Some(0),
        pass: Some(false),
        ..Default::default()
    }];
    let csv = reports_to_csv(&reports, true);
    assert!(csv.contains("pkg,fn,Write Bytes,1,0,false"));
}

#[test]
fn csv_output_without_check_skips_none_values_only_header() {
    let reports = vec![CostReport {
        package: "pkg".to_string(),
        function: "fn".to_string(),
        metric: "CPU Instructions",
        value: None,
        limit: Some(1),
        pass: Some(false),
        ..Default::default()
    }];
    let csv = reports_to_csv(&reports, false);
    assert_eq!(csv, "package,function,metric,value\n");
}

#[test]
fn csv_output_with_check_limit_none_pass_false() {
    let reports = vec![CostReport {
        package: "p".to_string(),
        function: "f".to_string(),
        metric: "CPU Instructions",
        value: None,
        limit: None,
        pass: Some(false),
    }];
    let csv = reports_to_csv(&reports, true);
    assert!(csv.contains("p,f,CPU Instructions,,,false"));
}

#[test]
fn csv_output_with_check_limit_some_pass_none() {
    let reports = vec![CostReport {
        package: "p".to_string(),
        function: "f".to_string(),
        metric: "CPU Instructions",
        value: Some(100),
        limit: Some(200),
        pass: None,
    }];
    let csv = reports_to_csv(&reports, true);
    assert!(csv.contains("p,f,CPU Instructions,100,200,"));
}

#[test]
fn csv_output_without_check_empty_package_name() {
    let reports = vec![CostReport {
        package: "".to_string(),
        function: "f".to_string(),
        metric: "CPU Instructions",
        value: Some(100),
        limit: None,
        pass: None,
    }];
    let csv = reports_to_csv(&reports, false);
    assert!(csv.contains(",f,CPU Instructions,100"));
}

#[test]
fn csv_output_without_check_empty_function_name() {
    let reports = vec![CostReport {
        package: "p".to_string(),
        function: "".to_string(),
        metric: "CPU Instructions",
        value: Some(100),
        limit: None,
        pass: None,
    }];
    let csv = reports_to_csv(&reports, false);
    assert!(csv.contains("p,,CPU Instructions,100"));
}

#[test]
fn csv_output_value_u32_max() {
    let reports = vec![CostReport {
        package: "p".to_string(),
        function: "f".to_string(),
        metric: "CPU Instructions",
        value: Some(u32::MAX),
        limit: None,
        pass: None,
    }];
    let csv = reports_to_csv(&reports, false);
    assert!(csv.contains(&u32::MAX.to_string()));
}

#[test]
fn csv_fields_that_need_it_are_quoted() {
    let reports = vec![CostReport {
        package: "a,b".to_string(),
        function: "say \"hi\"".to_string(),
        metric: "CPU Instructions",
        value: Some(7),
        limit: None,
        pass: None,
    }];
    assert_eq!(
        reports_to_csv(&reports, false),
        "package,function,metric,value\n\"a,b\",\"say \"\"hi\"\"\",CPU Instructions,7\n"
    );
}

#[test]
fn csv_output_quotes_fields_that_need_it() {
    let reports = vec![CostReport {
        package: "a,\"b\"".to_string(),
        function: "line\nbreak".to_string(),
        metric: "Read Bytes",
        value: Some(7),
        limit: None,
        pass: None,
    }];
    let csv = reports_to_csv(&reports, false);
    let expected =
        "package,function,metric,value\n\"a,\"\"b\"\"\",\"line\nbreak\",Read Bytes,7\n";
    assert_eq!(csv, expected);
}
