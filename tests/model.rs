use vcd_oxide::grammar::parse;
use vcd_oxide::model::{DumpError, ModelError, ValueChangeDump};

const UART: &str = "$date\n  Mon Jan 1 00:00:00 2024\n$end\n$version\n  sim 1.0\n$end\n$timescale\n  1 ns\n$end\n$scope module UartRxTest $end\n$scope module uart $end\n$var wire 1 ! clock $end\n$var wire 1 \" rx $end\n$var wire 8 #a data [7:0] $end\n$var real 64 $r level $end\n$upscope $end\n$upscope $end\n$enddefinitions $end\n#0\n$dumpvars\n0!\n1\"\nb0 #a\nr0.5 $r\n$end\n#1\n1!\n#2\n0!\n0\"\nb1010 #a\n$comment glitch here $end\n#3\n1!\n";

fn changes(d: &ValueChangeDump, k: usize) -> Vec<(usize, String)> {
    d.wave_map[k].value_changes.iter().map(|c| (c.time, c.value.clone())).collect()
}

#[test]
fn test_model_against_uart() {
    let ast = parse(UART).unwrap();
    let d = ValueChangeDump::fromDefinition(ast).unwrap();
    assert_eq!(d.date, "Mon Jan 1 00:00:00 2024");
    assert_eq!(d.version, "sim 1.0");
    assert_eq!(d.timescale, "1ns");
    assert_eq!(d.scopes.len(), 3);
    assert_eq!(d.scopes[0].parent, None);
    assert_eq!(d.scopes[0].scopes, vec![1]);
    assert_eq!(d.scopes[1].name, "UartRxTest");
    assert_eq!(d.scopes[1].kind, "module");
    assert_eq!(d.scopes[1].parent, Some(0));
    assert_eq!(d.scopes[1].scopes, vec![2]);
    assert_eq!(d.scopes[2].name, "uart");
    assert_eq!(d.scopes[2].parent, Some(1));
    assert_eq!(d.scopes[2].signals, vec![0, 1, 2, 3]);
    let ids: Vec<&str> = d.signals.iter().map(|s| s.identifier.as_str()).collect();
    assert_eq!(ids, vec!["!", "\"", "#a", "$r"]);
    assert_eq!(d.signals[2].size, 8);
    assert_eq!(d.signals[2].reference, "data [7:0]");
    assert_eq!(d.signals[3].kind, "real");
    assert_eq!(
        changes(&d, 0),
        vec![(0, "0".to_string()), (1, "1".to_string()), (2, "0".to_string()), (3, "1".to_string())]
    );
    assert_eq!(changes(&d, 1), vec![(0, "1".to_string()), (2, "0".to_string())]);
    assert_eq!(changes(&d, 2), vec![(0, "b0".to_string()), (2, "b1010".to_string())]);
    assert_eq!(changes(&d, 3), vec![(0, "r0.5".to_string())]);
}

#[test]
fn changes_before_any_time_marker_are_at_time_zero() {
    let d = ValueChangeDump::parse("$var wire 1 ! a $end $enddefinitions $end 1! #4 0!").unwrap();
    assert_eq!(changes(&d, 0), vec![(0, "1".to_string()), (4, "0".to_string())]);
}

#[test]
fn repeated_header_fields_keep_the_last() {
    let d = ValueChangeDump::parse(
        "$date one $end $date two $end $timescale 10 us $end $timescale 100fs $end $enddefinitions $end",
    )
    .unwrap();
    assert_eq!(d.date, "two");
    assert_eq!(d.timescale, "100fs");
}

#[test]
fn upscope_at_root_fails() {
    let r = ValueChangeDump::parse("$scope module a $end $upscope $end $upscope $end $enddefinitions $end");
    assert_eq!(r.unwrap_err(), DumpError::Model(ModelError::UpscopeAtRoot));
}

#[test]
fn every_non_root_scope_has_one_parent() {
    let d = ValueChangeDump::parse(
        "$scope module a $end $scope module b $end $upscope $end $scope module c $end $upscope $end $upscope $end $scope module d $end $enddefinitions $end",
    )
    .unwrap();
    assert_eq!(d.scopes.len(), 5);
    assert_eq!(d.scopes[0].parent, None);
    for c in 1..d.scopes.len() {
        let p = d.scopes[c].parent.unwrap();
        assert!(p < c);
        let listing: Vec<usize> =
            (0..d.scopes.len()).filter(|&q| d.scopes[q].scopes.contains(&c)).collect();
        assert_eq!(listing, vec![p]);
    }
    assert_eq!(d.scopes[1].scopes, vec![2, 3]);
    assert_eq!(d.scopes[0].scopes, vec![1, 4]);
}

#[test]
fn duplicate_identifier_fails() {
    let r = ValueChangeDump::parse("$var wire 1 ! a $end $var wire 1 ! b $end $enddefinitions $end");
    assert_eq!(r.unwrap_err(), DumpError::Model(ModelError::DuplicateIdentifier));
}

#[test]
fn unknown_identifier_fails() {
    let r = ValueChangeDump::parse("$var wire 1 ! a $end $enddefinitions $end #0 1?");
    assert_eq!(r.unwrap_err(), DumpError::Model(ModelError::UnknownIdentifier));
    let r = ValueChangeDump::parse("$var wire 1 ! a $end $enddefinitions $end $dumpvars 1! 0? $end");
    assert_eq!(r.unwrap_err(), DumpError::Model(ModelError::UnknownIdentifier));
}

#[test]
fn keyword_blocks_record_their_changes() {
    let d = ValueChangeDump::parse(
        "$var wire 1 ! a $end $enddefinitions $end #0 $dumpvars 1! $end #3 $dumpoff x! $end #5 $dumpon 0! $end $dumpall 0! $end",
    )
    .unwrap();
    assert_eq!(
        changes(&d, 0),
        vec![(0, "1".to_string()), (3, "x".to_string()), (5, "0".to_string()), (5, "0".to_string())]
    );
}

#[test]
fn syntax_error_is_reported_by_dump_parse() {
    let r = ValueChangeDump::parse("$var wire 0 ! a $end $enddefinitions $end");
    assert!(matches!(r.unwrap_err(), DumpError::Syntax(e) if e.offset == 0 && e.line == 1));
}
