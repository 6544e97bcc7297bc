use vcd_oxide::ast::{
    DeclarationCommand, SimulationCommand, SimulationType, SimulationValueChange,
    VectorValueChange,
};
use vcd_oxide::grammar::{parse, SyntaxError, ValueChangeDumpParser};

const DECLARATIONS: &str = "$comment\n  any comment  text\n$end\n$date\n   Date text. For example: November 11, 2009.\n$end\n$version\n   VCD generator tool version info text.\n$end\n$timescale 1ps $end\n$scope module top $end\n$var wire 1 ! clk $end\n$var reg 8 # data [7:0] $end\n$upscope $end\n$enddefinitions $end\n";

const UART: &str = "$date\n  Mon Jan 1 00:00:00 2024\n$end\n$version\n  sim 1.0\n$end\n$timescale\n  1 ns\n$end\n$scope module UartRxTest $end\n$scope module uart $end\n$var wire 1 ! clock $end\n$var wire 1 \" rx $end\n$var wire 8 #a data [7:0] $end\n$var real 64 $r level $end\n$upscope $end\n$upscope $end\n$enddefinitions $end\n#0\n$dumpvars\n0!\n1\"\nb0 #a\nr0.5 $r\n$end\n#1\n1!\n#2\n0!\n0\"\nb1010 #a\n$comment glitch here $end\n#3\n1!\n";

#[test]
fn test_vcd_declaration_command() {
    let ast = parse(DECLARATIONS).unwrap();
    assert!(ast.simulation_commands.is_empty());
    let d = &ast.declaration_commands;
    assert_eq!(d.len(), 9);
    match &d[0] {
        DeclarationCommand::Comment(c) => assert_eq!(c.value, "any comment  text"),
        other => panic!("unexpected {:?}", other),
    }
    match &d[1] {
        DeclarationCommand::Date(c) => {
            assert_eq!(c.value, "Date text. For example: November 11, 2009.")
        }
        other => panic!("unexpected {:?}", other),
    }
    match &d[2] {
        DeclarationCommand::Version(c) => {
            assert_eq!(c.value, "VCD generator tool version info text.")
        }
        other => panic!("unexpected {:?}", other),
    }
    match &d[3] {
        DeclarationCommand::Timescale(t) => {
            assert_eq!(t.time_number, 1);
            assert_eq!(t.time_unit, "ps");
        }
        other => panic!("unexpected {:?}", other),
    }
    match &d[4] {
        DeclarationCommand::Scope(s) => {
            assert_eq!(s.scope_type, "module");
            assert_eq!(s.scope_identifier, "top");
        }
        other => panic!("unexpected {:?}", other),
    }
    match &d[5] {
        DeclarationCommand::Var(v) => {
            assert_eq!(v.var_type, "wire");
            assert_eq!(v.size, 1);
            assert_eq!(v.identifier_code, "!");
            assert_eq!(v.reference, "clk");
        }
        other => panic!("unexpected {:?}", other),
    }
    match &d[6] {
        DeclarationCommand::Var(v) => {
            assert_eq!(v.size, 8);
            assert_eq!(v.identifier_code, "#");
            assert_eq!(v.reference, "data [7:0]");
        }
        other => panic!("unexpected {:?}", other),
    }
    assert!(matches!(d[7], DeclarationCommand::Upscope));
    assert!(matches!(d[8], DeclarationCommand::EndDefinitions));
}

#[test]
fn test_vcd_file() {
    let ast = ValueChangeDumpParser::parse(UART).unwrap();
    assert_eq!(ast.declaration_commands.len(), 12);
    match &ast.declaration_commands[2] {
        DeclarationCommand::Timescale(t) => {
            assert_eq!(t.time_number, 1);
            assert_eq!(t.time_unit, "ns");
        }
        other => panic!("unexpected {:?}", other),
    }
    let s = &ast.simulation_commands;
    assert_eq!(s.len(), 11);
    match &s[0] {
        SimulationCommand::SimulationTime(t) => assert_eq!(t.value, 0),
        other => panic!("unexpected {:?}", other),
    }
    match &s[1] {
        SimulationCommand::KeywordCommand(k) => {
            assert_eq!(k.ty, SimulationType::DumpVars);
            assert_eq!(k.value_changes.len(), 4);
            match &k.value_changes[0] {
                SimulationValueChange::Scalar(c) => {
                    assert_eq!(c.value, "0");
                    assert_eq!(c.identifier_code, "!");
                }
                other => panic!("unexpected {:?}", other),
            }
            match &k.value_changes[2] {
                SimulationValueChange::Vector(VectorValueChange::Binary(b)) => {
                    assert_eq!(b.value, "b0");
                    assert_eq!(b.identifier_code, "#a");
                }
                other => panic!("unexpected {:?}", other),
            }
            match &k.value_changes[3] {
                SimulationValueChange::Vector(VectorValueChange::Real(r)) => {
                    assert_eq!(r.value, "r0.5");
                    assert_eq!(r.identifier_code, "$r");
                }
                other => panic!("unexpected {:?}", other),
            }
        }
        other => panic!("unexpected {:?}", other),
    }
    match &s[8] {
        SimulationCommand::Comment(c) => assert_eq!(c.value, "glitch here"),
        other => panic!("unexpected {:?}", other),
    }
    assert_eq!(s[1..].iter().filter(|c| matches!(c, SimulationCommand::ValueChange(_))).count(), 5);
}

#[test]
fn value_change_accessors() {
    let ast = parse("$enddefinitions $end\nb0110 %%\nz%\n").unwrap();
    match &ast.simulation_commands[0] {
        SimulationCommand::ValueChange(c) => {
            assert_eq!(c.value(), "b0110");
            assert_eq!(c.identifier_code(), "%%");
        }
        other => panic!("unexpected {:?}", other),
    }
    match &ast.simulation_commands[1] {
        SimulationCommand::ValueChange(c) => {
            assert_eq!(c.value(), "z");
            assert_eq!(c.identifier_code(), "%");
        }
        other => panic!("unexpected {:?}", other),
    }
}

#[test]
fn syntax_error_position() {
    let text = "$timescale 1ns $end\n$enddefinitions $end\n#0\n1!\n$bogus\n";
    assert_eq!(parse(text).unwrap_err(), SyntaxError { offset: 47, line: 5 });
}

#[test]
fn syntax_error_missing_enddefinitions() {
    let text = "$scope module top $end\n";
    assert_eq!(parse(text).unwrap_err(), SyntaxError { offset: 23, line: 2 });
}

#[test]
fn syntax_error_bad_timescale_unit() {
    let text = "$timescale 10 parsecs $end\n$enddefinitions $end\n";
    assert_eq!(parse(text).unwrap_err(), SyntaxError { offset: 0, line: 1 });
}

#[test]
fn syntax_error_unterminated_dumpvars() {
    let text = "$enddefinitions $end\n\n$dumpvars 1! 0\"\n";
    assert_eq!(parse(text).unwrap_err(), SyntaxError { offset: 22, line: 3 });
}

#[test]
fn empty_simulation_section() {
    let ast = parse("$enddefinitions $end").unwrap();
    assert_eq!(ast.declaration_commands.len(), 1);
    assert!(ast.simulation_commands.is_empty());
}

#[test]
fn body_text_is_kept_as_written() {
    let ast = parse("$date a  b $end\n$comment line one\n\tline two $end\n$var wire 8 # data  [7:0] $end\n$enddefinitions $end\n$comment  x\n y  $end").unwrap();
    match &ast.declaration_commands[0] {
        DeclarationCommand::Date(d) => assert_eq!(d.value, "a  b"),
        other => panic!("unexpected {:?}", other),
    }
    match &ast.declaration_commands[1] {
        DeclarationCommand::Comment(c) => assert_eq!(c.value, "line one\n\tline two"),
        other => panic!("unexpected {:?}", other),
    }
    match &ast.declaration_commands[2] {
        DeclarationCommand::Var(v) => assert_eq!(v.reference, "data  [7:0]"),
        other => panic!("unexpected {:?}", other),
    }
    match &ast.simulation_commands[0] {
        SimulationCommand::Comment(c) => assert_eq!(c.value, "x\n y"),
        other => panic!("unexpected {:?}", other),
    }
}

#[test]
fn empty_bodies_are_empty() {
    let ast = parse("$version $end $comment\n$end $enddefinitions $end").unwrap();
    match &ast.declaration_commands[0] {
        DeclarationCommand::Version(v) => assert_eq!(v.value, ""),
        other => panic!("unexpected {:?}", other),
    }
    match &ast.declaration_commands[1] {
        DeclarationCommand::Comment(c) => assert_eq!(c.value, ""),
        other => panic!("unexpected {:?}", other),
    }
}
