//! The WaveJSON encoder: one run-length wave string per signal, or per bit
//! of a bus when buses are expanded, all padded to one column count.
use crate::grammar::{is_binary_radix, is_real_radix, is_scalar_level};
use crate::grammar::SyntaxError;
use crate::model::{
    ChangeRecord, DumpError, DumpView, ModelError, SignalView, ValueChange, ValueChangeDump,
    ValueChangeDumpSignal, ValueChangeDumpWave, dump_spec, dump_wf,
};
use crate::text::{chars_of, decimal, push_char, push_decimal, string_from_chars, string_of};
use vstd::prelude::*;

verus! {

#[derive(Debug, PartialEq, Eq)]
pub struct Head {}

#[derive(Debug, PartialEq, Eq)]
pub struct Foot {}

/// One row: a name, a wave string, and the texts shown by its `=` symbols.
#[derive(Debug, PartialEq, Eq)]
pub struct WaveJsonSignal {
    pub name: Option<String>,
    pub wave: Option<String>,
    pub data: Option<Vec<String>>,
}

/// The rows of the bits of one bus, under the bus's name.
#[derive(Debug, PartialEq, Eq)]
pub struct WaveJsonGroup {
    pub name: Option<String>,
    pub signals: Vec<WaveJsonSignal>,
}

#[derive(Debug, PartialEq, Eq)]
pub enum WaveJsonSignalItem {
    Signal(WaveJsonSignal),
    Group(WaveJsonGroup),
}

/// A WaveJSON document.
#[derive(Debug, PartialEq, Eq)]
pub struct WaveJson {
    pub signal: Vec<WaveJsonSignalItem>,
    pub head: Option<Head>,
    pub foot: Option<Foot>,
}

/// A value that cannot be read as the bit string a bus row needs: a real
/// value, a character other than `0`, `1`, `x`, `z`, or more digits than the
/// bus has bits.
#[derive(Debug, Clone, Copy, PartialEq, Eq, Structural)]
pub struct ValueFormatError {}

pub struct RowView {
    pub name: Option<Seq<char>>,
    pub wave: Option<Seq<char>>,
    pub data: Option<Seq<Seq<char>>>,
}

pub enum ItemView {
    Signal(RowView),
    Group(Option<Seq<char>>, Seq<RowView>),
}

pub open spec fn opt_string_view(o: Option<String>) -> Option<Seq<char>> {
    match o {
        Some(s) => Some(s@),
        None => None,
    }
}

pub open spec fn strings_view(v: Seq<String>) -> Seq<Seq<char>> {
    v.map_values(|s: String| s@)
}

impl View for WaveJsonSignal {
    type V = RowView;

    open spec fn view(&self) -> RowView {
        RowView {
            name: opt_string_view(self.name),
            wave: opt_string_view(self.wave),
            data: match self.data {
                Some(d) => Some(strings_view(d@)),
                None => None,
            },
        }
    }
}

pub open spec fn rows_view(v: Seq<WaveJsonSignal>) -> Seq<RowView> {
    v.map_values(|s: WaveJsonSignal| s@)
}

impl View for WaveJsonSignalItem {
    type V = ItemView;

    open spec fn view(&self) -> ItemView {
        match self {
            WaveJsonSignalItem::Signal(s) => ItemView::Signal(s@),
            WaveJsonSignalItem::Group(g) => ItemView::Group(
                opt_string_view(g.name),
                rows_view(g.signals@),
            ),
        }
    }
}

pub open spec fn items_view(v: Seq<WaveJsonSignalItem>) -> Seq<ItemView> {
    v.map_values(|i: WaveJsonSignalItem| i@)
}

/// The wave symbol of a value: `l` for `0`, `h` for `1`, `x` and `z` as they
/// are, `=` for anything else.
pub open spec fn symbol(v: Seq<char>) -> char {
    if v == seq!['0'] {
        'l'
    } else if v == seq!['1'] {
        'h'
    } else if v == seq!['x'] {
        'x'
    } else if v == seq!['z'] {
        'z'
    } else {
        '='
    }
}

/// The text that an `=` symbol shows: the value without its radix letter.
pub open spec fn datum(v: Seq<char>) -> Seq<char> {
    if v.len() > 0 && (is_binary_radix(v[0]) || is_real_radix(v[0])) {
        v.skip(1)
    } else {
        v
    }
}

pub open spec fn dots(n: nat) -> Seq<char> {
    Seq::new(n, |_i: int| '.')
}

/// The repeat markers after change `i`: one per time step strictly between it
/// and the next change.
pub open spec fn gap(cs: Seq<ChangeRecord>, i: int) -> nat {
    if i + 1 < cs.len() && cs[i + 1].0 > cs[i].0 + 1 {
        (cs[i + 1].0 - cs[i].0 - 1) as nat
    } else {
        0
    }
}

/// The wave string of the first `k` changes, `syms[i]` standing for change `i`.
pub open spec fn wave_upto(syms: Seq<char>, cs: Seq<ChangeRecord>, k: int) -> Seq<char>
    decreases k,
{
    if k <= 0 {
        seq![]
    } else {
        wave_upto(syms, cs, k - 1).push(syms[k - 1]) + dots(gap(cs, k - 1))
    }
}

/// `w` right-padded with `.` to `width` characters.
pub open spec fn pad(w: Seq<char>, width: nat) -> Seq<char> {
    if w.len() < width {
        w + dots((width - w.len()) as nat)
    } else {
        w
    }
}

pub open spec fn value_syms(cs: Seq<ChangeRecord>) -> Seq<char> {
    cs.map_values(|c: ChangeRecord| symbol(c.1))
}

/// The texts shown by the `=` symbols of the first `k` changes.
pub open spec fn data_upto(cs: Seq<ChangeRecord>, k: int) -> Seq<Seq<char>>
    decreases k,
{
    if k <= 0 {
        seq![]
    } else if symbol(cs[k - 1].1) == '=' {
        data_upto(cs, k - 1).push(datum(cs[k - 1].1))
    } else {
        data_upto(cs, k - 1)
    }
}

/// The row of a signal that is not expanded, padded to `width` columns.
pub open spec fn signal_wave(cs: Seq<ChangeRecord>, width: nat) -> Seq<char> {
    pad(wave_upto(value_syms(cs), cs, cs.len() as int), width)
}

pub open spec fn signal_row(sig: SignalView, cs: Seq<ChangeRecord>, width: nat) -> RowView {
    RowView {
        name: Some(sig.reference),
        wave: Some(signal_wave(cs, width)),
        data: if data_upto(cs, cs.len() as int).len() == 0 {
            None
        } else {
            Some(data_upto(cs, cs.len() as int))
        },
    }
}

/// The digits of a binary value, without its radix letter.
pub open spec fn binary_digits(v: Seq<char>) -> Seq<char> {
    if v.len() > 0 && is_binary_radix(v[0]) {
        v.skip(1)
    } else {
        v
    }
}

/// Whether `v` reads as a bit string of at most `width` bits.
pub open spec fn is_bit_string(v: Seq<char>, width: nat) -> bool {
    &&& !(v.len() > 0 && is_real_radix(v[0]))
    &&& binary_digits(v).len() <= width
    &&& forall|j: int| 0 <= j < binary_digits(v).len() ==> is_scalar_level(#[trigger] binary_digits(v)[j])
}

/// The digits of `v` left-padded with `0` to `width` characters.
pub open spec fn padded_bits(v: Seq<char>, width: nat) -> Seq<char> {
    Seq::new((width - binary_digits(v).len()) as nat, |_i: int| '0') + binary_digits(v)
}

/// Bit `i` of `v`, bit 0 being the rightmost of the padded digits.
pub open spec fn bit_at(v: Seq<char>, width: nat, i: int) -> char {
    padded_bits(v, width)[width - 1 - i]
}

pub open spec fn bit_syms(cs: Seq<ChangeRecord>, width: nat, i: int) -> Seq<char> {
    cs.map_values(|c: ChangeRecord| symbol(seq![bit_at(c.1, width, i)]))
}

pub open spec fn bit_wave(cs: Seq<ChangeRecord>, size: nat, i: int, width: nat) -> Seq<char> {
    pad(wave_upto(bit_syms(cs, size, i), cs, cs.len() as int), width)
}

pub open spec fn bit_row(sig: SignalView, cs: Seq<ChangeRecord>, width: nat, i: int) -> RowView {
    RowView {
        name: Some(sig.reference + seq!['['] + decimal(i as nat) + seq![']']),
        wave: Some(bit_wave(cs, sig.size as nat, i, width)),
        data: None,
    }
}

pub open spec fn all_bit_strings(cs: Seq<ChangeRecord>, width: nat) -> bool {
    forall|j: int| 0 <= j < cs.len() ==> is_bit_string(#[trigger] cs[j].1, width)
}

pub open spec fn group_spec(sig: SignalView, cs: Seq<ChangeRecord>, width: nat) -> Result<
    (Option<Seq<char>>, Seq<RowView>),
    ValueFormatError,
> {
    if all_bit_strings(cs, sig.size as nat) {
        Ok((Some(sig.reference), Seq::new(sig.size as nat, |i: int| bit_row(sig, cs, width, i))))
    } else {
        Err(ValueFormatError {  })
    }
}

pub open spec fn item_spec(sig: SignalView, cs: Seq<ChangeRecord>, width: nat, expand: bool) -> Result<
    ItemView,
    ValueFormatError,
> {
    if sig.size > 1 && expand {
        match group_spec(sig, cs, width) {
            Ok((name, rows)) => Ok(ItemView::Group(name, rows)),
            Err(e) => Err(e),
        }
    } else {
        Ok(ItemView::Signal(signal_row(sig, cs, width)))
    }
}

/// The largest number of changes of any waveform.
pub open spec fn max_changes(ws: Seq<Seq<ChangeRecord>>) -> nat
    decreases ws.len(),
{
    if ws.len() == 0 {
        0
    } else {
        let m = max_changes(ws.drop_last());
        if ws.last().len() > m {
            ws.last().len()
        } else {
            m
        }
    }
}

/// The items of the first `k` signals.
pub open spec fn items_upto(d: DumpView, width: nat, expand: bool, k: int) -> Result<
    Seq<ItemView>,
    ValueFormatError,
>
    decreases k,
{
    if k <= 0 {
        Ok(seq![])
    } else {
        match items_upto(d, width, expand, k - 1) {
            Ok(items) => match item_spec(d.signals[k - 1], d.waves[k - 1], width, expand) {
                Ok(it) => Ok(items.push(it)),
                Err(e) => Err(e),
            },
            Err(e) => Err(e),
        }
    }
}

/// The document of a dump: one item per signal in declaration order, every
/// row padded to the largest number of changes.
pub open spec fn encode_spec(d: DumpView, expand: bool) -> Result<Seq<ItemView>, ValueFormatError> {
    items_upto(d, max_changes(d.waves), expand, d.signals.len() as int)
}

pub open spec fn json_result_view(r: Result<WaveJson, ValueFormatError>) -> Result<
    Seq<ItemView>,
    ValueFormatError,
> {
    match r {
        Ok(w) => Ok(items_view(w.signal@)),
        Err(e) => Err(e),
    }
}

fn symbol_of_chars(v: &Vec<char>) -> (r: char)
    ensures
        r == symbol(v@),
{
    if v.len() == 1 {
        let c = v[0];
        proof {
            assert(v@ =~= seq![c]);
        }
        if c == '0' {
            'l'
        } else if c == '1' {
            'h'
        } else if c == 'x' {
            'x'
        } else if c == 'z' {
            'z'
        } else {
            proof {
                assert(v@ != seq!['0'] && v@ != seq!['1'] && v@ != seq!['x'] && v@ != seq!['z']) by {
                    assert(seq!['0'][0] == '0');
                    assert(seq!['1'][0] == '1');
                    assert(seq!['x'][0] == 'x');
                    assert(seq!['z'][0] == 'z');
                }
            }
            '='
        }
    } else {
        proof {
            assert(seq!['0'].len() == 1 && seq!['1'].len() == 1 && seq!['x'].len() == 1
                && seq!['z'].len() == 1);
        }
        '='
    }
}

/// Maps a value to its wave symbol.
pub fn map_signal_value_to_wavejson_value(value: &str) -> (r: char)
    ensures
        r == symbol(value@),
{
    let v = chars_of(value);
    symbol_of_chars(&v)
}

/// The wave symbol of one bit.
fn bit_symbol(b: char) -> (r: char)
    ensures
        r == symbol(seq![b]),
{
    let mut v: Vec<char> = Vec::new();
    v.push(b);
    proof {
        assert(v@ =~= seq![b]);
    }
    symbol_of_chars(&v)
}

/// The text that an `=` symbol shows for `value`.
fn datum_string(value: &str) -> (r: String)
    ensures
        r@ == datum(value@),
{
    let v = chars_of(value);
    if v.len() > 0 && (v[0] == 'b' || v[0] == 'B' || v[0] == 'r' || v[0] == 'R') {
        string_of(&v, 1, v.len())
    } else {
        string_from_chars(&v)
    }
}

/// Appends `n` repeat markers.
fn push_dots(w: &mut String, n: usize)
    ensures
        final(w)@ == old(w)@ + dots(n as nat),
{
    let mut i: usize = 0;
    while i < n
        invariant
            i <= n,
            w@ == old(w)@ + dots(i as nat),
        decreases n - i,
    {
        push_char(w, '.');
        proof {
            assert(old(w)@ + dots(i as nat) + seq!['.'] =~= old(w)@ + dots((i + 1) as nat));
        }
        i = i + 1;
    }
}

/// Appends the repeat markers after change `j`, keeping `count` equal to the
/// length of `w`, or to `usize::MAX` where the length is larger.
fn push_gap(w: &mut String, count: &mut usize, changes: &Vec<ValueChange>, j: usize)
    requires
        j < changes.len(),
        *old(count) == if old(w)@.len() < usize::MAX {
            old(w)@.len()
        } else {
            usize::MAX as nat
        },
    ensures
        final(w)@ == old(w)@ + dots(gap(changes@.map_values(|c: ValueChange| c@), j as int)),
        *final(count) == if final(w)@.len() < usize::MAX {
            final(w)@.len()
        } else {
            usize::MAX as nat
        },
{
    let ghost cs = changes@.map_values(|c: ValueChange| c@);
    if j + 1 < changes.len() {
        let cur = changes[j].time;
        let next = changes[j + 1].time;
        proof {
            assert(cs[j as int].0 == cur && cs[j + 1].0 == next);
        }
        if next > cur && next - cur > 1 {
            let n = next - cur - 1;
            push_dots(w, n);
            if *count > usize::MAX - n {
                *count = usize::MAX;
            } else {
                *count = *count + n;
            }
        } else {
            proof {
                assert(dots(0) =~= seq![]);
                assert(old(w)@ + dots(0) =~= old(w)@);
            }
        }
    } else {
        proof {
            assert(dots(0) =~= seq![]);
            assert(old(w)@ + dots(0) =~= old(w)@);
        }
    }
}

/// Pads `w` with repeat markers to `width` characters, `count` being its
/// length or `usize::MAX` where it is longer.
fn pad_to(w: &mut String, count: usize, width: usize)
    requires
        count == if old(w)@.len() < usize::MAX {
            old(w)@.len()
        } else {
            usize::MAX as nat
        },
    ensures
        final(w)@ == pad(old(w)@, width as nat),
{
    if count < width {
        push_dots(w, width - count);
    }
}

/// The row of a signal that is not expanded: one symbol per change, repeat
/// markers for the time between changes, padded to `max_value_change_len`.
pub fn vcd_wave_to_wavejson_signal(
    sig: &ValueChangeDumpSignal,
    wave: &ValueChangeDumpWave,
    max_value_change_len: usize,
) -> (r: WaveJsonSignal)
    ensures
        r@ == signal_row(sig@, wave@, max_value_change_len as nat),
{
    let ghost cs = wave@;
    let changes = &wave.value_changes;
    let mut result = String::new();
    let mut count: usize = 0;
    let mut data: Vec<String> = Vec::new();
    let mut j: usize = 0;
    proof {
        assert(strings_view(data@) =~= seq![]);
    }
    while j < changes.len()
        invariant
            cs == wave@,
            changes == wave.value_changes,
            j <= changes.len(),
            result@ == wave_upto(value_syms(cs), cs, j as int),
            strings_view(data@) == data_upto(cs, j as int),
            count == if result@.len() < usize::MAX {
                result@.len()
            } else {
                usize::MAX as nat
            },
        decreases changes.len() - j,
    {
        let value = changes[j].value.as_str();
        proof {
            assert(cs[j as int] == changes@[j as int]@);
        }
        let sym = map_signal_value_to_wavejson_value(value);
        push_char(&mut result, sym);
        if count < usize::MAX {
            count = count + 1;
        }
        if sym == '=' {
            let d = datum_string(value);
            proof {
                assert(strings_view(data@.push(d)) =~= strings_view(data@).push(d@));
            }
            data.push(d);
        }
        push_gap(&mut result, &mut count, changes, j);
        j = j + 1;
    }
    pad_to(&mut result, count, max_value_change_len);
    let data = if data.len() == 0 {
        None
    } else {
        Some(data)
    };
    WaveJsonSignal { name: Some(sig.reference.clone()), wave: Some(result), data }
}

/// Bit `i` of the value of `value_change` on a signal `sig.size` bits wide:
/// the binary digits, left-padded with `0`, read from the right. A value that
/// is not such a bit string is a `ValueFormatError`.
pub fn extract_bit_value(value_change: &ValueChange, sig: &ValueChangeDumpSignal, i: usize) -> (r:
    Result<char, ValueFormatError>)
    requires
        i < sig.size,
    ensures
        match r {
            Ok(b) => is_bit_string(value_change.value@, sig.size as nat) && b == bit_at(
                value_change.value@,
                sig.size as nat,
                i as int,
            ),
            Err(_) => !is_bit_string(value_change.value@, sig.size as nat),
        },
{
    let v = chars_of(value_change.value.as_str());
    let ghost vv = value_change.value@;
    if v.len() > 0 && (v[0] == 'r' || v[0] == 'R') {
        return Err(ValueFormatError {  });
    }
    let start: usize = if v.len() > 0 && (v[0] == 'b' || v[0] == 'B') {
        1
    } else {
        0
    };
    let ghost digits = binary_digits(vv);
    proof {
        assert(digits =~= v@.subrange(start as int, v.len() as int));
    }
    if v.len() - start > sig.size {
        return Err(ValueFormatError {  });
    }
    let mut k: usize = start;
    while k < v.len()
        invariant
            start <= k <= v.len(),
            v@ == vv,
            vv == value_change.value@,
            digits == v@.subrange(start as int, v.len() as int),
            digits == binary_digits(vv),
            forall|j: int| 0 <= j < k - start ==> is_scalar_level(#[trigger] digits[j]),
        decreases v.len() - k,
    {
        let c = v[k];
        if !(c == '0' || c == '1' || c == 'x' || c == 'z') {
            proof {
                assert(digits[k - start] == c);
                assert(!is_scalar_level(binary_digits(vv)[k - start]));
            }
            return Err(ValueFormatError {  });
        }
        k = k + 1;
    }
    let n = v.len() - start;
    proof {
        let p = padded_bits(vv, sig.size as nat);
        let w = sig.size as int;
        if (i as int) < n {
            assert(p[w - 1 - i] == digits[n - 1 - i]);
        } else {
            assert(p[w - 1 - i] == '0');
        }
    }
    if i < n {
        Ok(v[v.len() - 1 - i])
    } else {
        Ok('0')
    }
}

/// Whether every value of `changes` is a bit string of at most `size` bits.
fn all_bits_valid(changes: &Vec<ValueChange>, sig: &ValueChangeDumpSignal) -> (r: bool)
    requires
        sig.size > 0,
    ensures
        r == all_bit_strings(changes@.map_values(|c: ValueChange| c@), sig.size as nat),
{
    let ghost cs = changes@.map_values(|c: ValueChange| c@);
    let mut j: usize = 0;
    while j < changes.len()
        invariant
            sig.size > 0,
            j <= changes.len(),
            cs == changes@.map_values(|c: ValueChange| c@),
            forall|k: int| 0 <= k < j ==> is_bit_string(#[trigger] cs[k].1, sig.size as nat),
        decreases changes.len() - j,
    {
        proof {
            assert(cs[j as int] == changes@[j as int]@);
        }
        if extract_bit_value(&changes[j], sig, 0).is_err() {
            proof {
                assert(!is_bit_string(cs[j as int].1, sig.size as nat));
            }
            return false;
        }
        j = j + 1;
    }
    true
}

/// The row of bit `i` of a bus whose values are all bit strings.
fn bit_row_exec(
    sig: &ValueChangeDumpSignal,
    wave: &ValueChangeDumpWave,
    max_value_change_len: usize,
    i: usize,
) -> (r: WaveJsonSignal)
    requires
        i < sig.size,
        all_bit_strings(wave@, sig.size as nat),
    ensures
        r@ == bit_row(sig@, wave@, max_value_change_len as nat, i as int),
{
    let ghost cs = wave@;
    let ghost syms = bit_syms(cs, sig.size as nat, i as int);
    let changes = &wave.value_changes;
    let mut result = String::new();
    let mut count: usize = 0;
    let mut j: usize = 0;
    while j < changes.len()
        invariant
            cs == wave@,
            syms == bit_syms(cs, sig.size as nat, i as int),
            all_bit_strings(cs, sig.size as nat),
            i < sig.size,
            changes == wave.value_changes,
            j <= changes.len(),
            result@ == wave_upto(syms, cs, j as int),
            count == if result@.len() < usize::MAX {
                result@.len()
            } else {
                usize::MAX as nat
            },
        decreases changes.len() - j,
    {
        proof {
            assert(cs[j as int] == changes@[j as int]@);
        }
        match extract_bit_value(&changes[j], sig, i) {
            Ok(b) => {
                let sym = bit_symbol(b);
                push_char(&mut result, sym);
            },
            Err(_) => {
                // Every value was checked to be a bit string before any row
                // was built, so extraction cannot fail here.
                proof {
                    assert(is_bit_string(cs[j as int].1, sig.size as nat));
                }
                push_char(&mut result, '=');
            },
        }
        if count < usize::MAX {
            count = count + 1;
        }
        push_gap(&mut result, &mut count, changes, j);
        j = j + 1;
    }
    pad_to(&mut result, count, max_value_change_len);
    let mut name = sig.reference.clone();
    push_char(&mut name, '[');
    push_decimal(&mut name, i);
    push_char(&mut name, ']');
    proof {
        assert(name@ =~= sig.reference@ + seq!['['] + decimal(i as nat) + seq![']']);
    }
    WaveJsonSignal { name: Some(name), wave: Some(result), data: None }
}

pub open spec fn group_result_view(r: Result<WaveJsonGroup, ValueFormatError>) -> Result<
    (Option<Seq<char>>, Seq<RowView>),
    ValueFormatError,
> {
    match r {
        Ok(g) => Ok((opt_string_view(g.name), rows_view(g.signals@))),
        Err(e) => Err(e),
    }
}

/// The rows of the bits of a bus, bit 0 first.
pub fn vcd_wave_to_wavejson_group(
    sig: &ValueChangeDumpSignal,
    wave: &ValueChangeDumpWave,
    max_value_change_len: usize,
) -> (r: Result<WaveJsonGroup, ValueFormatError>)
    requires
        sig.size > 0,
    ensures
        group_result_view(r) == group_spec(sig@, wave@, max_value_change_len as nat),
{
    if !all_bits_valid(&wave.value_changes, sig) {
        return Err(ValueFormatError {  });
    }
    let mut signals: Vec<WaveJsonSignal> = Vec::new();
    let mut i: usize = 0;
    while i < sig.size
        invariant
            i <= sig.size,
            all_bit_strings(wave@, sig.size as nat),
            rows_view(signals@) == Seq::new(
                i as nat,
                |k: int| bit_row(sig@, wave@, max_value_change_len as nat, k),
            ),
        decreases sig.size - i,
    {
        let row = bit_row_exec(sig, wave, max_value_change_len, i);
        proof {
            assert(rows_view(signals@.push(row)) =~= rows_view(signals@).push(row@));
            assert(rows_view(signals@.push(row)) =~= Seq::new(
                (i + 1) as nat,
                |k: int| bit_row(sig@, wave@, max_value_change_len as nat, k),
            ));
        }
        signals.push(row);
        i = i + 1;
    }
    Ok(WaveJsonGroup { name: Some(sig.reference.clone()), signals })
}

fn max_value_changes(vcd: &ValueChangeDump) -> (r: usize)
    ensures
        r == max_changes(vcd@.waves),
{
    let ghost ws = vcd@.waves;
    let mut m: usize = 0;
    let mut k: usize = 0;
    proof {
        assert(ws.take(0) =~= seq![]);
    }
    while k < vcd.wave_map.len()
        invariant
            ws == vcd@.waves,
            k <= vcd.wave_map.len(),
            m == max_changes(ws.take(k as int)),
        decreases vcd.wave_map.len() - k,
    {
        proof {
            assert(ws.take(k + 1).drop_last() =~= ws.take(k as int));
            assert(ws.take(k + 1).last() == vcd.wave_map@[k as int]@);
        }
        let n = vcd.wave_map[k].value_changes.len();
        if n > m {
            m = n;
        }
        k = k + 1;
    }
    proof {
        assert(ws.take(k as int) =~= ws);
    }
    m
}

impl WaveJson {
    /// Encodes a dump: one item per signal in declaration order, a group of
    /// bit rows for each bus when `expand_busses` is set, every row padded to
    /// the largest number of changes of any signal.
    pub fn from_vcd(vcd: ValueChangeDump, expand_busses: bool) -> (r: Result<WaveJson, ValueFormatError>)
        requires
            dump_wf(vcd@),
        ensures
            json_result_view(r) == encode_spec(vcd@, expand_busses),
            r matches Ok(w) ==> w.head is None && w.foot is None,
    {
        let ghost d = vcd@;
        let width = max_value_changes(&vcd);
        let mut items: Vec<WaveJsonSignalItem> = Vec::new();
        let mut k: usize = 0;
        proof {
            assert(items_view(items@) =~= seq![]);
        }
        while k < vcd.signals.len()
            invariant
                d == vcd@,
                dump_wf(d),
                width == max_changes(d.waves),
                k <= vcd.signals.len(),
                items_upto(d, width as nat, expand_busses, k as int) == Ok::<
                    Seq<ItemView>,
                    ValueFormatError,
                >(items_view(items@)),
            decreases vcd.signals.len() - k,
        {
            let sig = &vcd.signals[k];
            let wave = &vcd.wave_map[k];
            proof {
                assert(d.signals[k as int] == sig@);
                assert(d.waves[k as int] == wave@);
            }
            let item = if sig.size > 1 && expand_busses {
                match vcd_wave_to_wavejson_group(sig, wave, width) {
                    Ok(g) => WaveJsonSignalItem::Group(g),
                    Err(e) => {
                        proof {
                            lemma_items_err(d, width as nat, expand_busses, k + 1, d.signals.len() as int);
                        }
                        return Err(e);
                    },
                }
            } else {
                WaveJsonSignalItem::Signal(vcd_wave_to_wavejson_signal(sig, wave, width))
            };
            proof {
                assert(items_view(items@.push(item)) =~= items_view(items@).push(item@));
            }
            items.push(item);
            k = k + 1;
        }
        Ok(WaveJson { signal: items, head: None, foot: None })
    }
}

proof fn lemma_items_err(d: DumpView, width: nat, expand: bool, i: int, j: int)
    requires
        0 <= i <= j,
        items_upto(d, width, expand, i) is Err,
    ensures
        items_upto(d, width, expand, j) == items_upto(d, width, expand, i),
    decreases j - i,
{
    if j > i {
        lemma_items_err(d, width, expand, i, j - 1);
    }
}

/// The number of characters of `w` other than the repeat marker `.`.
pub open spec fn non_dots(w: Seq<char>) -> nat
    decreases w.len(),
{
    if w.len() == 0 {
        0
    } else {
        non_dots(w.drop_last()) + if w.last() == '.' {
            0nat
        } else {
            1nat
        }
    }
}

proof fn lemma_non_dots_concat(a: Seq<char>, b: Seq<char>)
    ensures
        non_dots(a + b) == non_dots(a) + non_dots(b),
    decreases b.len(),
{
    if b.len() > 0 {
        assert((a + b).drop_last() =~= a + b.drop_last());
        lemma_non_dots_concat(a, b.drop_last());
    } else {
        assert(a + b =~= a);
    }
}

proof fn lemma_non_dots_dots(n: nat)
    ensures
        non_dots(dots(n)) == 0,
    decreases n,
{
    if n > 0 {
        assert(dots(n).drop_last() =~= dots((n - 1) as nat));
        lemma_non_dots_dots((n - 1) as nat);
    }
}

proof fn lemma_wave_non_dots(syms: Seq<char>, cs: Seq<ChangeRecord>, k: int)
    requires
        0 <= k <= syms.len(),
        forall|j: int| 0 <= j < syms.len() ==> #[trigger] syms[j] != '.',
    ensures
        non_dots(wave_upto(syms, cs, k)) == k,
    decreases k,
{
    if k > 0 {
        lemma_wave_non_dots(syms, cs, k - 1);
        let w = wave_upto(syms, cs, k - 1);
        lemma_non_dots_concat(w.push(syms[k - 1]), dots(gap(cs, k - 1)));
        lemma_non_dots_dots(gap(cs, k - 1));
        assert(w.push(syms[k - 1]).drop_last() =~= w);
    }
}

proof fn lemma_pad_non_dots(w: Seq<char>, width: nat)
    ensures
        non_dots(pad(w, width)) == non_dots(w),
{
    if w.len() < width {
        lemma_non_dots_concat(w, dots((width - w.len()) as nat));
        lemma_non_dots_dots((width - w.len()) as nat);
    }
}

/// A signal row holds one symbol other than `.` for each recorded change,
/// whatever the padding.
pub proof fn lemma_signal_symbol_count(cs: Seq<ChangeRecord>, width: nat)
    ensures
        non_dots(signal_wave(cs, width)) == cs.len(),
{
    lemma_wave_non_dots(value_syms(cs), cs, cs.len() as int);
    lemma_pad_non_dots(wave_upto(value_syms(cs), cs, cs.len() as int), width);
}

/// A bit row of a bus holds one symbol other than `.` for each recorded
/// change of the bus, whatever the padding.
pub proof fn lemma_bit_symbol_count(cs: Seq<ChangeRecord>, size: nat, i: int, width: nat)
    ensures
        non_dots(bit_wave(cs, size, i, width)) == cs.len(),
{
    lemma_wave_non_dots(bit_syms(cs, size, i), cs, cs.len() as int);
    lemma_pad_non_dots(wave_upto(bit_syms(cs, size, i), cs, cs.len() as int), width);
}

/// Every row of `it` has a wave string with `n` symbols other than `.`.
pub open spec fn rows_have_symbols(it: ItemView, n: nat) -> bool {
    match it {
        ItemView::Signal(r) => r.wave matches Some(w) && non_dots(w) == n,
        ItemView::Group(_, rows) => forall|i: int|
            0 <= i < rows.len() ==> (#[trigger] rows[i].wave matches Some(w) && non_dots(w) == n),
    }
}

proof fn lemma_items_symbol_count(d: DumpView, width: nat, expand: bool, k: int)
    requires
        0 <= k,
    ensures
        items_upto(d, width, expand, k) matches Ok(items) ==> items.len() == k && forall|j: int|
            0 <= j < k ==> rows_have_symbols(#[trigger] items[j], d.waves[j].len()),
    decreases k,
{
    if k > 0 {
        lemma_items_symbol_count(d, width, expand, k - 1);
        let sig = d.signals[k - 1];
        let cs = d.waves[k - 1];
        lemma_signal_symbol_count(cs, width);
        assert forall|i: int| 0 <= i < sig.size implies non_dots(
            #[trigger] bit_wave(cs, sig.size as nat, i, width),
        ) == cs.len() by {
            lemma_bit_symbol_count(cs, sig.size as nat, i, width);
        }
        if let Ok(items) = items_upto(d, width, expand, k) {
            let prev = items_upto(d, width, expand, k - 1)->Ok_0;
            assert(items == prev.push(items[k - 1]));
            if let ItemView::Group(_, rows) = items[k - 1] {
                assert forall|i: int| 0 <= i < rows.len() implies (#[trigger] rows[i].wave matches Some(
                    w,
                ) && non_dots(w) == cs.len()) by {
                    assert(rows[i].wave == Some(bit_wave(cs, sig.size as nat, i, width)));
                }
            }
        }
    }
}

/// In every document that encoding produces, each row of the item of signal
/// `k` holds exactly one symbol other than `.` per recorded change of that
/// signal, bit rows of expanded buses included.
pub proof fn lemma_document_symbol_count(d: DumpView, expand: bool)
    requires
        encode_spec(d, expand) is Ok,
    ensures
        encode_spec(d, expand)->Ok_0.len() == d.signals.len(),
        forall|k: int|
            0 <= k < d.signals.len() ==> rows_have_symbols(
                #[trigger] encode_spec(d, expand)->Ok_0[k],
                d.waves[k].len(),
            ),
{
    lemma_items_symbol_count(d, max_changes(d.waves), expand, d.signals.len() as int);
}

/// Encoding is a function of the dump: any two encodings of the same dump
/// with the same expansion flag are equal.
pub proof fn lemma_encode_deterministic(
    d: DumpView,
    expand: bool,
    r1: Result<WaveJson, ValueFormatError>,
    r2: Result<WaveJson, ValueFormatError>,
)
    requires
        json_result_view(r1) == encode_spec(d, expand),
        json_result_view(r2) == encode_spec(d, expand),
    ensures
        json_result_view(r1) == json_result_view(r2),
{
}

/// Padding never shortens a row, and a row no longer than `width` comes out
/// exactly `width` long.
pub proof fn lemma_pad_width(w: Seq<char>, width: nat)
    ensures
        pad(w, width).len() == if w.len() < width {
            width
        } else {
            w.len()
        },
{
}

/// No waveform has more changes than `max_changes`.
pub proof fn lemma_max_changes(ws: Seq<Seq<ChangeRecord>>, k: int)
    requires
        0 <= k < ws.len(),
    ensures
        ws[k].len() <= max_changes(ws),
    decreases ws.len(),
{
    if k < ws.len() - 1 {
        lemma_max_changes(ws.drop_last(), k);
    }
}

proof fn lemma_wave_len_no_gaps(syms: Seq<char>, cs: Seq<ChangeRecord>, k: int)
    requires
        0 <= k <= cs.len(),
        forall|j: int| 0 <= j < cs.len() ==> #[trigger] gap(cs, j) == 0,
    ensures
        wave_upto(syms, cs, k).len() == k,
    decreases k,
{
    if k > 0 {
        lemma_wave_len_no_gaps(syms, cs, k - 1);
        assert(gap(cs, k - 1) == 0);
    }
}

/// Where no two consecutive changes of any signal are more than one time
/// step apart, every signal row of a dump is exactly as long as the largest
/// number of changes of any signal.
pub proof fn lemma_rows_aligned(d: DumpView, k: int)
    requires
        0 <= k < d.waves.len(),
        forall|m: int, j: int| 0 <= m < d.waves.len() ==> #[trigger] gap(d.waves[m], j) == 0,
    ensures
        signal_wave(d.waves[k], max_changes(d.waves)).len() == max_changes(d.waves),
{
    let cs = d.waves[k];
    assert forall|j: int| 0 <= j < cs.len() implies #[trigger] gap(cs, j) == 0 by {
        assert(gap(d.waves[k], j) == 0);
    }
    lemma_wave_len_no_gaps(value_syms(cs), cs, cs.len() as int);
    lemma_max_changes(d.waves, k);
}

/// Why dump text could not be turned into a WaveJSON document.
#[derive(Debug, Clone, Copy, PartialEq, Eq, Structural)]
pub enum ConvertError {
    Syntax(SyntaxError),
    Model(ModelError),
    ValueFormat(ValueFormatError),
}

/// What `convert` returns for the text `s`.
pub open spec fn convert_spec(s: Seq<char>, expand: bool) -> Result<Seq<ItemView>, ConvertError> {
    match dump_spec(s) {
        Ok(d) => match encode_spec(d, expand) {
            Ok(items) => Ok(items),
            Err(e) => Err(ConvertError::ValueFormat(e)),
        },
        Err(DumpError::Syntax(e)) => Err(ConvertError::Syntax(e)),
        Err(DumpError::Model(e)) => Err(ConvertError::Model(e)),
    }
}

/// Converts dump text into a WaveJSON document: parse, fold, encode.
pub fn convert(input: &str, expand_busses: bool) -> (r: Result<WaveJson, ConvertError>)
    requires
        input@.len() < usize::MAX,
    ensures
        match r {
            Ok(w) => convert_spec(input@, expand_busses) == Ok::<Seq<ItemView>, ConvertError>(
                items_view(w.signal@),
            ) && w.head is None && w.foot is None,
            Err(e) => convert_spec(input@, expand_busses) == Err::<Seq<ItemView>, ConvertError>(e),
        },
{
    match ValueChangeDump::parse(input) {
        Ok(d) => match WaveJson::from_vcd(d, expand_busses) {
            Ok(w) => Ok(w),
            Err(e) => Err(ConvertError::ValueFormat(e)),
        },
        Err(DumpError::Syntax(e)) => Err(ConvertError::Syntax(e)),
        Err(DumpError::Model(e)) => Err(ConvertError::Model(e)),
    }
}

} // verus!
