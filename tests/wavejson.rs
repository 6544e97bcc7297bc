use vcd_oxide::model::{ValueChange, ValueChangeDump, ValueChangeDumpSignal, ValueChangeDumpWave};
use vcd_oxide::wavejson::{
    convert, extract_bit_value, map_signal_value_to_wavejson_value, vcd_wave_to_wavejson_group,
    vcd_wave_to_wavejson_signal, ConvertError, ValueFormatError, WaveJson, WaveJsonSignal,
    WaveJsonSignalItem,
};

fn rows(w: &WaveJson) -> Vec<WaveJsonSignal> {
    let mut out = Vec::new();
    for item in &w.signal {
        match item {
            WaveJsonSignalItem::Signal(s) => out.push(s.clone_row()),
            WaveJsonSignalItem::Group(g) => {
                for s in &g.signals {
                    out.push(s.clone_row());
                }
            }
        }
    }
    out
}

trait CloneRow {
    fn clone_row(&self) -> WaveJsonSignal;
}

impl CloneRow for WaveJsonSignal {
    fn clone_row(&self) -> WaveJsonSignal {
        WaveJsonSignal { name: self.name.clone(), wave: self.wave.clone(), data: self.data.clone() }
    }
}

fn wave_of(w: &WaveJson, k: usize) -> String {
    match &w.signal[k] {
        WaveJsonSignalItem::Signal(s) => s.wave.clone().unwrap(),
        WaveJsonSignalItem::Group(_) => panic!("group"),
    }
}

fn signal(size: usize) -> ValueChangeDumpSignal {
    ValueChangeDumpSignal {
        kind: "wire".to_string(),
        identifier: "#".to_string(),
        reference: "bus".to_string(),
        size,
    }
}

fn change(time: usize, value: &str) -> ValueChange {
    ValueChange { time, value: value.to_string() }
}

#[test]
fn clock_scenario() {
    let w = convert("$var wire 1 ! clk $end $enddefinitions $end #0 1! #5 0! #10 1!", false).unwrap();
    assert_eq!(w.signal.len(), 1);
    match &w.signal[0] {
        WaveJsonSignalItem::Signal(s) => {
            assert_eq!(s.name.as_deref(), Some("clk"));
            assert_eq!(s.wave.as_deref(), Some("h....l....h"));
            assert_eq!(s.data, None);
        }
        _ => panic!("group"),
    }
    assert!(w.head.is_none() && w.foot.is_none());
}

#[test]
fn clock_row_is_padded_to_busier_signal() {
    let w = convert(
        "$var wire 1 ! clk $end $var wire 1 \" d $end $enddefinitions $end #0 1! 0\" #1 1\" #2 0\" #3 1\" #4 0\"",
        false,
    )
    .unwrap();
    assert_eq!(wave_of(&w, 0), "h....");
    assert_eq!(wave_of(&w, 1), "lhlhl");
}

#[test]
fn vector_scenario() {
    let w = convert("$var wire 4 # v $end $enddefinitions $end b1010 #", false).unwrap();
    match &w.signal[0] {
        WaveJsonSignalItem::Signal(s) => {
            assert_eq!(s.wave.as_deref(), Some("="));
            assert_eq!(s.data, Some(vec!["1010".to_string()]));
        }
        _ => panic!("group"),
    }
}

#[test]
fn malformed_bits_in_bus_expansion_fail() {
    let r = convert("$var wire 4 # v $end $enddefinitions $end b12xy #", true);
    assert_eq!(r.unwrap_err(), ConvertError::ValueFormat(ValueFormatError {}));
    assert!(convert("$var wire 4 # v $end $enddefinitions $end b12xy #", false).is_ok());
}

#[test]
fn bit_extraction_of_b101() {
    let sig = signal(3);
    let c = change(0, "b101");
    assert_eq!(extract_bit_value(&c, &sig, 0), Ok('1'));
    assert_eq!(extract_bit_value(&c, &sig, 1), Ok('0'));
    assert_eq!(extract_bit_value(&c, &sig, 2), Ok('1'));
}

#[test]
fn bit_extraction_pads_with_zeros() {
    let sig = signal(4);
    let c = change(0, "bz1");
    assert_eq!(extract_bit_value(&c, &sig, 0), Ok('1'));
    assert_eq!(extract_bit_value(&c, &sig, 1), Ok('z'));
    assert_eq!(extract_bit_value(&c, &sig, 2), Ok('0'));
    assert_eq!(extract_bit_value(&c, &sig, 3), Ok('0'));
    assert_eq!(extract_bit_value(&change(0, "x"), &sig, 0), Ok('x'));
}

#[test]
fn bit_extraction_errors() {
    let sig = signal(3);
    assert_eq!(extract_bit_value(&change(0, "b1001"), &sig, 0), Err(ValueFormatError {}));
    assert_eq!(extract_bit_value(&change(0, "r1.5"), &sig, 0), Err(ValueFormatError {}));
    assert_eq!(extract_bit_value(&change(0, "b12"), &sig, 0), Err(ValueFormatError {}));
}

#[test]
fn symbol_mapping() {
    assert_eq!(map_signal_value_to_wavejson_value("0"), 'l');
    assert_eq!(map_signal_value_to_wavejson_value("1"), 'h');
    assert_eq!(map_signal_value_to_wavejson_value("x"), 'x');
    assert_eq!(map_signal_value_to_wavejson_value("z"), 'z');
    assert_eq!(map_signal_value_to_wavejson_value("b1"), '=');
    assert_eq!(map_signal_value_to_wavejson_value("10"), '=');
    assert_eq!(map_signal_value_to_wavejson_value(""), '=');
}

#[test]
fn one_symbol_per_change() {
    let w = convert(
        "$var wire 1 ! a $end $var wire 2 # b $end $enddefinitions $end #0 1! b01 # #3 0! #4 x! b10 # #9 z! #10 1!",
        true,
    )
    .unwrap();
    let d = ValueChangeDump::parse(
        "$var wire 1 ! a $end $var wire 2 # b $end $enddefinitions $end #0 1! b01 # #3 0! #4 x! b10 # #9 z! #10 1!",
    )
    .unwrap();
    let all = rows(&w);
    assert_eq!(all.len(), 3);
    let counts = [d.wave_map[0].value_changes.len(), d.wave_map[1].value_changes.len(), d.wave_map[1].value_changes.len()];
    for (row, n) in all.iter().zip(counts.iter()) {
        let wave = row.wave.clone().unwrap();
        assert_eq!(wave.chars().filter(|&c| c != '.').count(), *n);
    }
    assert_eq!(all[0].wave.as_deref(), Some("h..lx....zh"));
    assert_eq!(all[1].name.as_deref(), Some("b[0]"));
    assert_eq!(all[1].wave.as_deref(), Some("h...l"));
    assert_eq!(all[2].name.as_deref(), Some("b[1]"));
    assert_eq!(all[2].wave.as_deref(), Some("l...h"));
}

#[test]
fn encoding_twice_gives_the_same_document() {
    let text = "$var wire 1 ! a $end $var wire 3 # b $end $enddefinitions $end #0 1! b101 # #2 0! b1 #";
    let a = WaveJson::from_vcd(ValueChangeDump::parse(text).unwrap(), true).unwrap();
    let b = WaveJson::from_vcd(ValueChangeDump::parse(text).unwrap(), true).unwrap();
    assert_eq!(a, b);
    let c = WaveJson::from_vcd(ValueChangeDump::parse(text).unwrap(), false).unwrap();
    let e = WaveJson::from_vcd(ValueChangeDump::parse(text).unwrap(), false).unwrap();
    assert_eq!(c, e);
}

#[test]
fn rows_align_to_max_columns() {
    let w = convert(
        "$var wire 1 ! a $end $var wire 1 \" b $end $var wire 4 # c $end $enddefinitions $end #0 0! 1\" b0 # #1 1! #2 0! 0\" #3 1!",
        true,
    )
    .unwrap();
    let all = rows(&w);
    assert_eq!(all.len(), 6);
    for row in &all {
        assert_eq!(row.wave.clone().unwrap().chars().count(), 4);
    }
    assert_eq!(all[0].wave.as_deref(), Some("lhlh"));
    assert_eq!(all[1].wave.as_deref(), Some("h.l."));
    assert_eq!(all[2].wave.as_deref(), Some("l..."));
    assert_eq!(all[5].name.as_deref(), Some("c[3]"));
}

#[test]
fn wide_bus_row_names() {
    let sig = signal(12);
    let wave = ValueChangeDumpWave { value_changes: vec![change(0, "b100000000001")] };
    let g = vcd_wave_to_wavejson_group(&sig, &wave, 3).unwrap();
    assert_eq!(g.name.as_deref(), Some("bus"));
    assert_eq!(g.signals.len(), 12);
    assert_eq!(g.signals[10].name.as_deref(), Some("bus[10]"));
    assert_eq!(g.signals[0].wave.as_deref(), Some("h.."));
    assert_eq!(g.signals[1].wave.as_deref(), Some("l.."));
    assert_eq!(g.signals[11].wave.as_deref(), Some("h.."));
    assert_eq!(g.signals[11].data, None);
}

#[test]
fn real_values_pass_through_as_data() {
    let sig = signal(64);
    let wave = ValueChangeDumpWave { value_changes: vec![change(0, "r1.5"), change(2, "R-0.25")] };
    let s = vcd_wave_to_wavejson_signal(&sig, &wave, 0);
    assert_eq!(s.wave.as_deref(), Some("=.="));
    assert_eq!(s.data, Some(vec!["1.5".to_string(), "-0.25".to_string()]));
    assert!(vcd_wave_to_wavejson_group(&sig, &wave, 0).is_err());
}

#[test]
fn times_that_go_back_emit_no_fillers() {
    let sig = signal(1);
    let wave = ValueChangeDumpWave { value_changes: vec![change(5, "1"), change(2, "0"), change(3, "1")] };
    let s = vcd_wave_to_wavejson_signal(&sig, &wave, 0);
    assert_eq!(s.wave.as_deref(), Some("hlh"));
}

#[test]
fn empty_dump_has_no_rows() {
    let w = convert("$enddefinitions $end", true).unwrap();
    assert!(w.signal.is_empty());
}

#[test]
fn signal_without_changes_is_all_padding() {
    let w = convert("$var wire 1 ! a $end $var wire 1 \" b $end $enddefinitions $end #0 1! #1 0!", false).unwrap();
    assert_eq!(wave_of(&w, 1), "..");
}

#[test]
fn convert_reports_syntax_and_model_errors() {
    assert!(matches!(convert("$enddefinitions", false), Err(ConvertError::Syntax(_))));
    assert!(matches!(convert("$enddefinitions $end 1!", false), Err(ConvertError::Model(_))));
}
