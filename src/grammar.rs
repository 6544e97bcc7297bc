//! The dump file grammar: words, the commands they spell, and the parser.
//!
//! A dump file is a sequence of words separated by white space. The grammar
//! is stated over that word sequence by the spec functions below; `parse`
//! returns exactly what they describe.
use crate::ast::{
    BinaryVectorValueChange, ChangeView, DeclView, DeclarationCommand, DeclarationDate,
    DeclarationScope, DeclarationTimescale, DeclarationVar, DeclarationVersion, DefinitionView,
    GenericComment, RealVectorValueChange, ScalarValueChange, SimView, SimulationCommand,
    SimulationKeywordCommand, SimulationTime, SimulationType, SimulationValueChange,
    ValueChangeDumpDefinition, VectorValueChange, changes_view,
};
use crate::text::{chars_of, is_digit, number, parse_decimal, push_char, string_of};
use vstd::prelude::*;

verus! {

pub open spec fn is_ws(c: char) -> bool {
    c == ' ' || c == '\t' || c == '\n' || c == '\r'
}

/// The end of the word that runs through position `i`.
pub open spec fn word_end(s: Seq<char>, i: int) -> int
    decreases s.len() - i,
{
    if i < 0 || i >= s.len() || is_ws(s[i]) {
        i
    } else {
        word_end(s, i + 1)
    }
}

/// The spans of the words of `s` that start at `i` or later, after `acc`.
pub open spec fn scan_words(s: Seq<char>, i: int, acc: Seq<(int, int)>) -> Seq<(int, int)>
    decreases s.len() - i,
{
    if i < 0 || i >= s.len() {
        acc
    } else if is_ws(s[i]) {
        scan_words(s, i + 1, acc)
    } else {
        let e = word_end(s, i + 1);
        if i < e <= s.len() {
            scan_words(s, e, acc.push((i, e)))
        } else {
            acc
        }
    }
}

/// Start and end of each maximal run of non-white-space characters of `s`.
pub open spec fn word_spans(s: Seq<char>) -> Seq<(int, int)> {
    scan_words(s, 0, seq![])
}

/// The words of `s`, in order.
pub open spec fn words(s: Seq<char>) -> Seq<Seq<char>> {
    word_spans(s).map_values(|p: (int, int)| s.subrange(p.0, p.1))
}

pub open spec fn span_view(v: Seq<(usize, usize)>) -> Seq<(int, int)> {
    v.map_values(|p: (usize, usize)| (p.0 as int, p.1 as int))
}

/// `sp` holds the word spans of `s`.
pub open spec fn spans_of(s: Seq<char>, sp: Seq<(usize, usize)>) -> bool {
    &&& span_view(sp) == word_spans(s)
    &&& forall|k: int| 0 <= k < sp.len() ==> #[trigger] sp[k].0 < sp[k].1 <= s.len()
    &&& forall|k1: int, k2: int| #![trigger sp[k1], sp[k2]] 0 <= k1 < k2 < sp.len() ==> sp[k1].1 <= sp[k2].0
}

fn is_ws_char(c: char) -> (r: bool)
    ensures
        r == is_ws(c),
{
    c == ' ' || c == '\t' || c == '\n' || c == '\r'
}

/// Splits `s` into the spans of its words.
fn tokenize(s: &Vec<char>) -> (r: Vec<(usize, usize)>)
    ensures
        spans_of(s@, r@),
{
    let n = s.len();
    let mut r: Vec<(usize, usize)> = Vec::new();
    let mut i: usize = 0;
    proof {
        assert(span_view(r@) =~= seq![]);
    }
    while i < n
        invariant
            n == s.len(),
            i <= n,
            word_spans(s@) == scan_words(s@, i as int, span_view(r@)),
            forall|k: int| #![trigger r@[k]] 0 <= k < r.len() ==> r@[k].0 < r@[k].1 <= i,
            forall|k1: int, k2: int|
                #![trigger r@[k1], r@[k2]]
                0 <= k1 < k2 < r.len() ==> r@[k1].1 <= r@[k2].0,
        decreases n - i,
    {
        if is_ws_char(s[i]) {
            i = i + 1;
        } else {
            let mut e: usize = i + 1;
            while e < n && !is_ws_char(s[e])
                invariant
                    i < e <= n,
                    n == s.len(),
                    word_end(s@, i + 1) == word_end(s@, e as int),
                    forall|k: int| #![trigger r@[k]] 0 <= k < r.len() ==> r@[k].0 < r@[k].1 <= i,
                    forall|k1: int, k2: int|
                        #![trigger r@[k1], r@[k2]]
                        0 <= k1 < k2 < r.len() ==> r@[k1].1 <= r@[k2].0,
                decreases n - e,
            {
                e = e + 1;
            }
            proof {
                assert(span_view(r@.push((i, e))) =~= span_view(r@).push((i as int, e as int)));
            }
            let ghost before = r@;
            r.push((i, e));
            proof {
                assert forall|k: int| 0 <= k < r.len() implies #[trigger] r@[k] == if k < before.len() {
                    before[k]
                } else {
                    (i, e)
                } by {}
                assert forall|k: int| #![trigger r@[k]] 0 <= k < r.len() implies r@[k].0 < r@[k].1 <= e by {
                    if k < before.len() {
                        assert(before[k].1 <= i);
                    }
                }
                assert forall|k1: int, k2: int|
                    #![trigger r@[k1], r@[k2]]
                    0 <= k1 < k2 < r.len() implies r@[k1].1 <= r@[k2].0 by {
                    assert(r@[k1] == before[k1]);
                    if k2 < before.len() {
                        assert(r@[k2] == before[k2]);
                    }
                }
            }
            i = e;
        }
    }
    r
}

/// The first `$end` at index `i` or later.
pub open spec fn find_end(ws: Seq<Seq<char>>, i: int) -> Option<int>
    decreases ws.len() - i,
{
    if i < 0 || i >= ws.len() {
        None
    } else if ws[i] == "$end"@ {
        Some(i)
    } else {
        find_end(ws, i + 1)
    }
}

proof fn lemma_find_end(ws: Seq<Seq<char>>, i: int)
    requires
        0 <= i,
    ensures
        find_end(ws, i) matches Some(e) ==> i <= e < ws.len() && ws[e] == "$end"@,
    decreases ws.len() - i,
{
    if i < ws.len() && ws[i] != "$end"@ {
        lemma_find_end(ws, i + 1);
    }
}

/// The text of `s` from the start of word `lo` to the end of word `hi - 1`,
/// exactly as written; empty where `lo..hi` holds no word.
pub open spec fn body_text(s: Seq<char>, lo: int, hi: int) -> Seq<char> {
    if lo < hi {
        s.subrange(word_spans(s)[lo].0, word_spans(s)[hi - 1].1)
    } else {
        seq![]
    }
}

pub open spec fn is_unit(u: Seq<char>) -> bool {
    u == "s"@ || u == "ms"@ || u == "us"@ || u == "ns"@ || u == "ps"@ || u == "fs"@
}

/// The end of the run of digits of `w` that starts at `k`.
pub open spec fn leading_digits(w: Seq<char>, k: int) -> int
    decreases w.len() - k,
{
    if k < 0 || k >= w.len() || !is_digit(w[k]) {
        k
    } else {
        leading_digits(w, k + 1)
    }
}

/// `$timescale` at `i`: a number and a unit, written as one word or as two.
pub open spec fn timescale_at(ws: Seq<Seq<char>>, i: int) -> Option<(DeclView, int)> {
    if 0 <= i && i + 2 < ws.len() && ws[i + 2] == "$end"@ {
        let w = ws[i + 1];
        let k = leading_digits(w, 0);
        match number(w.take(k)) {
            Some(n) => if is_unit(w.skip(k)) {
                Some((DeclView::Timescale(n, w.skip(k)), i + 3))
            } else {
                None
            },
            None => None,
        }
    } else if 0 <= i && i + 3 < ws.len() && ws[i + 3] == "$end"@ {
        match number(ws[i + 1]) {
            Some(n) => if is_unit(ws[i + 2]) {
                Some((DeclView::Timescale(n, ws[i + 2]), i + 4))
            } else {
                None
            },
            None => None,
        }
    } else {
        None
    }
}

/// A keyword with a free text body up to `$end`: `$comment`, `$date`, `$version`.
pub open spec fn text_decl(keyword: Seq<char>, t: Seq<char>) -> DeclView {
    if keyword == "$comment"@ {
        DeclView::Comment(t)
    } else if keyword == "$date"@ {
        DeclView::Date(t)
    } else {
        DeclView::Version(t)
    }
}

/// The declaration command that starts at word `i`, and the index after it.
pub open spec fn decl_at(s: Seq<char>, i: int) -> Option<(DeclView, int)> {
    let ws = words(s);
    if i < 0 || i >= ws.len() {
        None
    } else {
        let w = ws[i];
        if w == "$comment"@ || w == "$date"@ || w == "$version"@ {
            match find_end(ws, i + 1) {
                Some(e) => Some((text_decl(w, body_text(s, i + 1, e)), e + 1)),
                None => None,
            }
        } else if w == "$timescale"@ {
            timescale_at(ws, i)
        } else if w == "$scope"@ {
            if i + 3 < ws.len() && ws[i + 3] == "$end"@ {
                Some((DeclView::Scope(ws[i + 1], ws[i + 2]), i + 4))
            } else {
                None
            }
        } else if w == "$upscope"@ {
            if i + 1 < ws.len() && ws[i + 1] == "$end"@ {
                Some((DeclView::Upscope, i + 2))
            } else {
                None
            }
        } else if w == "$enddefinitions"@ {
            if i + 1 < ws.len() && ws[i + 1] == "$end"@ {
                Some((DeclView::EndDefinitions, i + 2))
            } else {
                None
            }
        } else if w == "$var"@ {
            match find_end(ws, i + 1) {
                Some(e) => if e - i >= 5 {
                    match number(ws[i + 2]) {
                        Some(n) => if n >= 1 {
                            Some(
                                (
                                    DeclView::Var(
                                        ws[i + 1],
                                        n,
                                        ws[i + 3],
                                        body_text(s, i + 4, e),
                                    ),
                                    e + 1,
                                ),
                            )
                        } else {
                            None
                        },
                        None => None,
                    }
                } else {
                    None
                },
                None => None,
            }
        } else {
            None
        }
    }
}

pub open spec fn is_scalar_level(c: char) -> bool {
    c == '0' || c == '1' || c == 'x' || c == 'z'
}

pub open spec fn is_binary_radix(c: char) -> bool {
    c == 'b' || c == 'B'
}

pub open spec fn is_real_radix(c: char) -> bool {
    c == 'r' || c == 'R'
}

/// The value change that starts at word `i`: a level glued to its code, or a
/// radix-tagged value followed by its code.
pub open spec fn change_at(ws: Seq<Seq<char>>, i: int) -> Option<(ChangeView, int)> {
    if i < 0 || i >= ws.len() {
        None
    } else {
        let w = ws[i];
        if w.len() >= 2 && is_scalar_level(w[0]) {
            Some((ChangeView::Scalar(w.take(1), w.skip(1)), i + 1))
        } else if w.len() >= 2 && (is_binary_radix(w[0]) || is_real_radix(w[0])) && i + 1
            < ws.len() && ws[i + 1] != "$end"@ {
            if is_binary_radix(w[0]) {
                Some((ChangeView::Binary(w, ws[i + 1]), i + 2))
            } else {
                Some((ChangeView::Real(w, ws[i + 1]), i + 2))
            }
        } else {
            None
        }
    }
}

/// The value changes from word `i` up to `$end`, after `acc`, and the index
/// after the `$end`.
pub open spec fn changes_from(ws: Seq<Seq<char>>, i: int, acc: Seq<ChangeView>) -> Option<
    (Seq<ChangeView>, int),
>
    decreases ws.len() - i,
{
    if i < 0 || i >= ws.len() {
        None
    } else if ws[i] == "$end"@ {
        Some((acc, i + 1))
    } else {
        match change_at(ws, i) {
            Some((c, j)) => if i < j <= ws.len() {
                changes_from(ws, j, acc.push(c))
            } else {
                None
            },
            None => None,
        }
    }
}

pub open spec fn dump_kind(w: Seq<char>) -> Option<SimulationType> {
    if w == "$dumpall"@ {
        Some(SimulationType::DumpAll)
    } else if w == "$dumpoff"@ {
        Some(SimulationType::DumpOff)
    } else if w == "$dumpon"@ {
        Some(SimulationType::DumpOn)
    } else if w == "$dumpvars"@ {
        Some(SimulationType::DumpVars)
    } else {
        None
    }
}

/// The simulation command that starts at word `i`, and the index after it.
pub open spec fn sim_at(s: Seq<char>, i: int) -> Option<(SimView, int)> {
    let ws = words(s);
    if i < 0 || i >= ws.len() {
        None
    } else {
        let w = ws[i];
        match dump_kind(w) {
            Some(t) => match changes_from(ws, i + 1, seq![]) {
                Some((cs, j)) => Some((SimView::Keyword(t, cs), j)),
                None => None,
            },
            None => if w == "$comment"@ {
                match find_end(ws, i + 1) {
                    Some(e) => Some((SimView::Comment(body_text(s, i + 1, e)), e + 1)),
                    None => None,
                }
            } else if w.len() >= 2 && w[0] == '#' {
                match number(w.skip(1)) {
                    Some(t) => Some((SimView::Time(t), i + 1)),
                    None => None,
                }
            } else {
                match change_at(ws, i) {
                    Some((c, j)) => Some((SimView::Change(c), j)),
                    None => None,
                }
            },
        }
    }
}

/// The declarations from word `i` through `$enddefinitions $end`, after
/// `acc`, and the index after them; or the index of the word where no
/// declaration starts.
pub open spec fn decls_from(s: Seq<char>, i: int, acc: Seq<DeclView>) -> Result<
    (Seq<DeclView>, int),
    int,
>
    decreases words(s).len() - i,
{
    if i < 0 || i >= words(s).len() {
        Err(i)
    } else {
        match decl_at(s, i) {
            Some((d, j)) => if !(i < j <= words(s).len()) {
                Err(i)
            } else if d is EndDefinitions {
                Ok((acc.push(d), j))
            } else {
                decls_from(s, j, acc.push(d))
            },
            None => Err(i),
        }
    }
}

/// The simulation commands from word `i` to the end, after `acc`; or the
/// index of the word where no command starts.
pub open spec fn sims_from(s: Seq<char>, i: int, acc: Seq<SimView>) -> Result<
    Seq<SimView>,
    int,
>
    decreases words(s).len() - i,
{
    if i < 0 || i >= words(s).len() {
        Ok(acc)
    } else {
        match sim_at(s, i) {
            Some((c, j)) => if i < j <= words(s).len() {
                sims_from(s, j, acc.push(c))
            } else {
                Err(i)
            },
            None => Err(i),
        }
    }
}

/// The commands that the words of `s` spell, or the index of the first word
/// where the grammar fails.
pub open spec fn parse_text(s: Seq<char>) -> Result<DefinitionView, int> {
    match decls_from(s, 0, seq![]) {
        Ok((ds, j)) => match sims_from(s, j, seq![]) {
            Ok(ss) => Ok(DefinitionView { declarations: ds, simulation: ss }),
            Err(k) => Err(k),
        },
        Err(k) => Err(k),
    }
}

proof fn lemma_words(s: Seq<char>, sp: Seq<(usize, usize)>)
    requires
        spans_of(s, sp),
    ensures
        words(s).len() == sp.len(),
        word_spans(s).len() == sp.len(),
        forall|k: int|
            0 <= k < sp.len() ==> #[trigger] words(s)[k] == s.subrange(
                sp[k].0 as int,
                sp[k].1 as int,
            ),
        forall|k: int|
            0 <= k < sp.len() ==> #[trigger] word_spans(s)[k] == (sp[k].0 as int, sp[k].1 as int),
{
    assert forall|k: int| 0 <= k < sp.len() implies #[trigger] word_spans(s)[k] == (
        sp[k].0 as int,
        sp[k].1 as int,
    ) by {
        assert(span_view(sp)[k] == (sp[k].0 as int, sp[k].1 as int));
    }
    assert forall|k: int| 0 <= k < sp.len() implies #[trigger] words(s)[k] == s.subrange(
        sp[k].0 as int,
        sp[k].1 as int,
    ) by {
        assert(span_view(sp)[k] == (sp[k].0 as int, sp[k].1 as int));
    }
}

/// Whether `s[a..b]` spells `lit`.
fn span_is(s: &Vec<char>, a: usize, b: usize, lit: &str) -> (r: bool)
    requires
        a <= b <= s.len(),
    ensures
        r == (s@.subrange(a as int, b as int) == lit@),
{
    let k = chars_of(lit);
    if b - a != k.len() {
        return false;
    }
    let mut i: usize = 0;
    while i < k.len()
        invariant
            a <= b <= s.len(),
            b - a == k.len(),
            k@ == lit@,
            i <= k.len(),
            forall|j: int| 0 <= j < i ==> s@[a + j] == k@[j],
        decreases k.len() - i,
    {
        if s[a + i] != k[i] {
            proof {
                assert(s@.subrange(a as int, b as int)[i as int] != lit@[i as int]);
            }
            return false;
        }
        i = i + 1;
    }
    proof {
        assert(s@.subrange(a as int, b as int) =~= lit@);
    }
    true
}

/// Whether word `k` is `lit`.
fn word_is(s: &Vec<char>, sp: &Vec<(usize, usize)>, k: usize, lit: &str) -> (r: bool)
    requires
        spans_of(s@, sp@),
        k < sp.len(),
    ensures
        r == (words(s@)[k as int] == lit@),
{
    proof {
        lemma_words(s@, sp@);
    }
    span_is(s, sp[k].0, sp[k].1, lit)
}

/// Word `k` as a string.
fn word_string(s: &Vec<char>, sp: &Vec<(usize, usize)>, k: usize) -> (r: String)
    requires
        spans_of(s@, sp@),
        k < sp.len(),
    ensures
        r@ == words(s@)[k as int],
{
    proof {
        lemma_words(s@, sp@);
    }
    string_of(s, sp[k].0, sp[k].1)
}

/// The index of the first `$end` at word `i` or later.
fn next_end(s: &Vec<char>, sp: &Vec<(usize, usize)>, i: usize) -> (r: Option<usize>)
    requires
        spans_of(s@, sp@),
        i <= sp.len(),
    ensures
        match r {
            Some(e) => find_end(words(s@), i as int) == Some(e as int),
            None => find_end(words(s@), i as int) is None,
        },
{
    let ghost ws = words(s@);
    proof {
        lemma_words(s@, sp@);
    }
    let mut k: usize = i;
    while k < sp.len()
        invariant
            i <= k <= sp.len(),
            ws == words(s@),
            ws.len() == sp.len(),
            spans_of(s@, sp@),
            find_end(ws, i as int) == find_end(ws, k as int),
        decreases sp.len() - k,
    {
        if word_is(s, sp, k, "$end") {
            return Some(k);
        }
        k = k + 1;
    }
    None
}

/// The text from the start of word `lo` to the end of word `hi - 1`.
fn body_string(s: &Vec<char>, sp: &Vec<(usize, usize)>, lo: usize, hi: usize) -> (r: String)
    requires
        spans_of(s@, sp@),
        lo <= hi <= sp.len(),
    ensures
        r@ == body_text(s@, lo as int, hi as int),
{
    proof {
        lemma_words(s@, sp@);
    }
    if lo < hi {
        proof {
            if lo < hi - 1 {
                assert(sp@[lo as int].1 <= sp@[hi - 1].0);
            }
        }
        string_of(s, sp[lo].0, sp[hi - 1].1)
    } else {
        String::new()
    }
}

fn is_digit_char(c: char) -> (r: bool)
    ensures
        r == is_digit(c),
{
    let code = c as u32;
    48 <= code && code <= 57
}

fn is_unit_span(s: &Vec<char>, a: usize, b: usize) -> (r: bool)
    requires
        a <= b <= s.len(),
    ensures
        r == is_unit(s@.subrange(a as int, b as int)),
{
    span_is(s, a, b, "s") || span_is(s, a, b, "ms") || span_is(s, a, b, "us") || span_is(
        s,
        a,
        b,
        "ns",
    ) || span_is(s, a, b, "ps") || span_is(s, a, b, "fs")
}

/// Reads the `$timescale` command at word `i`.
fn read_timescale(s: &Vec<char>, sp: &Vec<(usize, usize)>, i: usize) -> (r: Option<
    (DeclarationCommand, usize),
>)
    requires
        spans_of(s@, sp@),
        i < sp.len(),
    ensures
        match r {
            Some((d, j)) => timescale_at(words(s@), i as int) == Some((d@, j as int)),
            None => timescale_at(words(s@), i as int) is None,
        },
{
    let ghost ws = words(s@);
    proof {
        lemma_words(s@, sp@);
    }
    if sp.len() - i > 2 && word_is(s, sp, i + 2, "$end") {
        let a = sp[i + 1].0;
        let b = sp[i + 1].1;
        let ghost w = ws[i + 1];
        let mut k: usize = a;
        while k < b && is_digit_char(s[k])
            invariant
                a <= k <= b <= s.len(),
                w == s@.subrange(a as int, b as int),
                leading_digits(w, 0) == leading_digits(w, k - a),
            decreases b - k,
        {
            k = k + 1;
        }
        proof {
            assert(w.take(k - a) =~= s@.subrange(a as int, k as int));
            assert(w.skip(k - a) =~= s@.subrange(k as int, b as int));
        }
        match parse_decimal(s, a, k) {
            Some(n) => {
                if is_unit_span(s, k, b) {
                    let unit = string_of(s, k, b);
                    Some(
                        (
                            DeclarationCommand::Timescale(
                                DeclarationTimescale { time_number: n, time_unit: unit },
                            ),
                            i + 3,
                        ),
                    )
                } else {
                    None
                }
            },
            None => None,
        }
    } else if sp.len() - i > 3 && word_is(s, sp, i + 3, "$end") {
        match parse_decimal(s, sp[i + 1].0, sp[i + 1].1) {
            Some(n) => {
                if is_unit_span(s, sp[i + 2].0, sp[i + 2].1) {
                    let unit = word_string(s, sp, i + 2);
                    Some(
                        (
                            DeclarationCommand::Timescale(
                                DeclarationTimescale { time_number: n, time_unit: unit },
                            ),
                            i + 4,
                        ),
                    )
                } else {
                    None
                }
            },
            None => None,
        }
    } else {
        None
    }
}

/// Reads the declaration command at word `i`.
fn read_declaration(s: &Vec<char>, sp: &Vec<(usize, usize)>, i: usize) -> (r: Option<
    (DeclarationCommand, usize),
>)
    requires
        spans_of(s@, sp@),
        i < sp.len(),
    ensures
        match r {
            Some((d, j)) => decl_at(s@, i as int) == Some((d@, j as int)) && i < j
                <= sp.len(),
            None => decl_at(s@, i as int) is None,
        },
{
    let ghost ws = words(s@);
    proof {
        lemma_words(s@, sp@);
    }
    let is_comment = word_is(s, sp, i, "$comment");
    let is_date = word_is(s, sp, i, "$date");
    let is_version = word_is(s, sp, i, "$version");
    if is_comment || is_date || is_version {
        match next_end(s, sp, i + 1) {
            Some(e) => {
                proof {
                    lemma_find_end(ws, i + 1);
                }
                let t = body_string(s, sp, i + 1, e);
                let d = if is_comment {
                    DeclarationCommand::Comment(GenericComment { value: t })
                } else if is_date {
                    DeclarationCommand::Date(DeclarationDate { value: t })
                } else {
                    DeclarationCommand::Version(DeclarationVersion { value: t })
                };
                Some((d, e + 1))
            },
            None => None,
        }
    } else if word_is(s, sp, i, "$timescale") {
        read_timescale(s, sp, i)
    } else if word_is(s, sp, i, "$scope") {
        if sp.len() - i > 3 && word_is(s, sp, i + 3, "$end") {
            let kind = word_string(s, sp, i + 1);
            let name = word_string(s, sp, i + 2);
            Some(
                (
                    DeclarationCommand::Scope(
                        DeclarationScope { scope_type: kind, scope_identifier: name },
                    ),
                    i + 4,
                ),
            )
        } else {
            None
        }
    } else if word_is(s, sp, i, "$upscope") {
        if sp.len() - i > 1 && word_is(s, sp, i + 1, "$end") {
            Some((DeclarationCommand::Upscope, i + 2))
        } else {
            None
        }
    } else if word_is(s, sp, i, "$enddefinitions") {
        if sp.len() - i > 1 && word_is(s, sp, i + 1, "$end") {
            Some((DeclarationCommand::EndDefinitions, i + 2))
        } else {
            None
        }
    } else if word_is(s, sp, i, "$var") {
        match next_end(s, sp, i + 1) {
            Some(e) => {
                proof {
                    lemma_find_end(ws, i + 1);
                }
                if e - i >= 5 {
                    match parse_decimal(s, sp[i + 2].0, sp[i + 2].1) {
                        Some(n) => {
                            if n >= 1 {
                                let kind = word_string(s, sp, i + 1);
                                let code = word_string(s, sp, i + 3);
                                let reference = body_string(s, sp, i + 4, e);
                                Some(
                                    (
                                        DeclarationCommand::Var(
                                            DeclarationVar {
                                                var_type: kind,
                                                size: n,
                                                identifier_code: code,
                                                reference,
                                            },
                                        ),
                                        e + 1,
                                    ),
                                )
                            } else {
                                None
                            }
                        },
                        None => None,
                    }
                } else {
                    None
                }
            },
            None => None,
        }
    } else {
        None
    }
}

/// Reads the value change at word `i`.
fn read_value_change(s: &Vec<char>, sp: &Vec<(usize, usize)>, i: usize) -> (r: Option<
    (SimulationValueChange, usize),
>)
    requires
        spans_of(s@, sp@),
        i < sp.len(),
    ensures
        match r {
            Some((c, j)) => change_at(words(s@), i as int) == Some((c@, j as int)) && i < j
                <= sp.len(),
            None => change_at(words(s@), i as int) is None,
        },
{
    let ghost ws = words(s@);
    proof {
        lemma_words(s@, sp@);
    }
    let a = sp[i].0;
    let b = sp[i].1;
    let ghost w = ws[i as int];
    proof {
        assert(w.take(1) =~= s@.subrange(a as int, a + 1));
        assert(w.skip(1) =~= s@.subrange(a + 1, b as int));
        assert(w[0] == s@[a as int]);
    }
    let c0 = s[a];
    let scalar = c0 == '0' || c0 == '1' || c0 == 'x' || c0 == 'z';
    let binary = c0 == 'b' || c0 == 'B';
    let real_radix = c0 == 'r' || c0 == 'R';
    if b - a >= 2 && scalar {
        let value = string_of(s, a, a + 1);
        let code = string_of(s, a + 1, b);
        Some(
            (
                SimulationValueChange::Scalar(ScalarValueChange { value, identifier_code: code }),
                i + 1,
            ),
        )
    } else if b - a >= 2 && (binary || real_radix) && sp.len() - i > 1 && !word_is(
        s,
        sp,
        i + 1,
        "$end",
    ) {
        let value = string_of(s, a, b);
        let code = word_string(s, sp, i + 1);
        if binary {
            Some(
                (
                    SimulationValueChange::Vector(
                        VectorValueChange::Binary(
                            BinaryVectorValueChange { value, identifier_code: code },
                        ),
                    ),
                    i + 2,
                ),
            )
        } else {
            Some(
                (
                    SimulationValueChange::Vector(
                        VectorValueChange::Real(
                            RealVectorValueChange { value, identifier_code: code },
                        ),
                    ),
                    i + 2,
                ),
            )
        }
    } else {
        None
    }
}

/// The value changes of a `$dump...` block, from word `i` through `$end`.
fn read_value_changes(s: &Vec<char>, sp: &Vec<(usize, usize)>, i: usize) -> (r: Option<
    (Vec<SimulationValueChange>, usize),
>)
    requires
        spans_of(s@, sp@),
        i <= sp.len(),
    ensures
        match r {
            Some((v, j)) => changes_from(words(s@), i as int, seq![]) == Some(
                (changes_view(v@), j as int),
            ) && i < j <= sp.len(),
            None => changes_from(words(s@), i as int, seq![]) is None,
        },
{
    let ghost ws = words(s@);
    proof {
        lemma_words(s@, sp@);
    }
    let mut acc: Vec<SimulationValueChange> = Vec::new();
    let mut k: usize = i;
    proof {
        assert(changes_view(acc@) =~= seq![]);
    }
    loop
        invariant
            i <= k <= sp.len(),
            ws == words(s@),
            ws.len() == sp.len(),
            spans_of(s@, sp@),
            changes_from(ws, i as int, seq![]) == changes_from(ws, k as int, changes_view(acc@)),
        decreases sp.len() - k,
    {
        if k >= sp.len() {
            return None;
        }
        if word_is(s, sp, k, "$end") {
            return Some((acc, k + 1));
        }
        match read_value_change(s, sp, k) {
            Some((c, j)) => {
                proof {
                    assert(changes_view(acc@.push(c)) =~= changes_view(acc@).push(c@));
                }
                acc.push(c);
                k = j;
            },
            None => {
                return None;
            },
        }
    }
}

/// The kind of `$dump...` block that word `i` opens, if any.
fn read_dump_kind(s: &Vec<char>, sp: &Vec<(usize, usize)>, i: usize) -> (r: Option<
    SimulationType,
>)
    requires
        spans_of(s@, sp@),
        i < sp.len(),
    ensures
        r == dump_kind(words(s@)[i as int]),
{
    if word_is(s, sp, i, "$dumpall") {
        Some(SimulationType::DumpAll)
    } else if word_is(s, sp, i, "$dumpoff") {
        Some(SimulationType::DumpOff)
    } else if word_is(s, sp, i, "$dumpon") {
        Some(SimulationType::DumpOn)
    } else if word_is(s, sp, i, "$dumpvars") {
        Some(SimulationType::DumpVars)
    } else {
        None
    }
}

/// Reads the simulation command at word `i`.
fn read_simulation_command(s: &Vec<char>, sp: &Vec<(usize, usize)>, i: usize) -> (r: Option<
    (SimulationCommand, usize),
>)
    requires
        spans_of(s@, sp@),
        i < sp.len(),
    ensures
        match r {
            Some((c, j)) => sim_at(s@, i as int) == Some((c@, j as int)) && i < j
                <= sp.len(),
            None => sim_at(s@, i as int) is None,
        },
{
    let ghost ws = words(s@);
    proof {
        lemma_words(s@, sp@);
    }
    match read_dump_kind(s, sp, i) {
        Some(t) => match read_value_changes(s, sp, i + 1) {
            Some((cs, j)) => Some(
                (
                    SimulationCommand::KeywordCommand(
                        SimulationKeywordCommand { ty: t, value_changes: cs },
                    ),
                    j,
                ),
            ),
            None => None,
        },
        None => {
            if word_is(s, sp, i, "$comment") {
                match next_end(s, sp, i + 1) {
                    Some(e) => {
                        proof {
                            lemma_find_end(ws, i + 1);
                        }
                        let t = body_string(s, sp, i + 1, e);
                        Some((SimulationCommand::Comment(GenericComment { value: t }), e + 1))
                    },
                    None => None,
                }
            } else if sp[i].1 - sp[i].0 >= 2 && s[sp[i].0] == '#' {
                let a = sp[i].0;
                let b = sp[i].1;
                proof {
                    assert(ws[i as int].skip(1) =~= s@.subrange(a + 1, b as int));
                }
                match parse_decimal(s, a + 1, b) {
                    Some(t) => Some(
                        (SimulationCommand::SimulationTime(SimulationTime { value: t }), i + 1),
                    ),
                    None => None,
                }
            } else {
                match read_value_change(s, sp, i) {
                    Some((c, j)) => Some((SimulationCommand::ValueChange(c), j)),
                    None => None,
                }
            }
        },
    }
}

/// The commands that the words of `s` spell, or the index of the word where
/// the grammar fails.
fn read_definition(s: &Vec<char>, sp: &Vec<(usize, usize)>) -> (r: Result<
    ValueChangeDumpDefinition,
    usize,
>)
    requires
        spans_of(s@, sp@),
    ensures
        match r {
            Ok(d) => parse_text(s@) == Ok::<DefinitionView, int>(d@),
            Err(k) => parse_text(s@) == Err::<DefinitionView, int>(k as int),
        },
{
    let ghost ws = words(s@);
    proof {
        lemma_words(s@, sp@);
    }
    let mut decls: Vec<DeclarationCommand> = Vec::new();
    let mut k: usize = 0;
    proof {
        assert(decls@.map_values(|d: DeclarationCommand| d@) =~= seq![]);
    }
    loop
        invariant_except_break
            decls_from(s@, 0, seq![]) == decls_from(
                s@,
                k as int,
                decls@.map_values(|d: DeclarationCommand| d@),
            ),
        invariant
            k <= sp.len(),
            ws == words(s@),
            ws.len() == sp.len(),
            spans_of(s@, sp@),
        ensures
            k <= sp.len(),
            decls_from(s@, 0, seq![]) == Ok::<(Seq<DeclView>, int), int>(
                (decls@.map_values(|d: DeclarationCommand| d@), k as int),
            ),
        decreases sp.len() - k,
    {
        if k >= sp.len() {
            return Err(k);
        }
        match read_declaration(s, sp, k) {
            Some((d, j)) => {
                let end = matches!(d, DeclarationCommand::EndDefinitions);
                proof {
                    assert(decls@.push(d).map_values(|d: DeclarationCommand| d@) =~= decls@.map_values(
                        |d: DeclarationCommand| d@,
                    ).push(d@));
                }
                decls.push(d);
                k = j;
                if end {
                    break ;
                }
            },
            None => {
                return Err(k);
            },
        }
    }
    let ghost k0 = k as int;
    let mut sims: Vec<SimulationCommand> = Vec::new();
    proof {
        assert(sims@.map_values(|c: SimulationCommand| c@) =~= seq![]);
    }
    while k < sp.len()
        invariant
            k <= sp.len(),
            ws == words(s@),
            ws.len() == sp.len(),
            spans_of(s@, sp@),
            decls_from(s@, 0, seq![]) == Ok::<(Seq<DeclView>, int), int>(
                (decls@.map_values(|d: DeclarationCommand| d@), k0),
            ),
            sims_from(s@, k0, seq![]) == sims_from(
                s@,
                k as int,
                sims@.map_values(|c: SimulationCommand| c@),
            ),
        decreases sp.len() - k,
    {
        match read_simulation_command(s, sp, k) {
            Some((c, j)) => {
                proof {
                    assert(sims@.push(c).map_values(|c: SimulationCommand| c@) =~= sims@.map_values(
                        |c: SimulationCommand| c@,
                    ).push(c@));
                }
                sims.push(c);
                k = j;
            },
            None => {
                return Err(k);
            },
        }
    }
    Ok(ValueChangeDumpDefinition { declaration_commands: decls, simulation_commands: sims })
}

/// Where the grammar rejected the input: `offset` is the position of the
/// offending word counted in characters (Unicode scalar values), not in
/// bytes, and is the input's length in characters where the input ended too
/// early; `line` is the line it stands on, counting from one.
#[derive(Debug, Clone, Copy, PartialEq, Eq, Structural)]
pub struct SyntaxError {
    pub offset: usize,
    pub line: usize,
}

/// Character offset of word `k` of `s`, or the length of `s` in characters
/// where there is no such word.
pub open spec fn error_offset(s: Seq<char>, k: int) -> int {
    if 0 <= k < word_spans(s).len() {
        word_spans(s)[k].0
    } else {
        s.len() as int
    }
}

/// The number of line feeds in `t`.
pub open spec fn newlines(t: Seq<char>) -> nat
    decreases t.len(),
{
    if t.len() == 0 {
        0
    } else {
        newlines(t.drop_last()) + if t.last() == '\n' {
            1nat
        } else {
            0nat
        }
    }
}

/// The line, counting from one, of the character at offset `off` of `s`.
pub open spec fn line_at(s: Seq<char>, off: int) -> int {
    newlines(s.take(off)) + 1int
}

/// What `parse` returns for the text `s`.
pub open spec fn parse_spec(s: Seq<char>) -> Result<DefinitionView, SyntaxError> {
    match parse_text(s) {
        Ok(d) => Ok(d),
        Err(k) => Err(
            SyntaxError {
                offset: error_offset(s, k) as usize,
                line: line_at(s, error_offset(s, k)) as usize,
            },
        ),
    }
}

/// The view of a parse result.
pub open spec fn parse_result_view(r: Result<ValueChangeDumpDefinition, SyntaxError>) -> Result<
    DefinitionView,
    SyntaxError,
> {
    match r {
        Ok(d) => Ok(d@),
        Err(e) => Err(e),
    }
}

/// The line, counting from one, of offset `off` of `s`.
fn line_of(s: &Vec<char>, off: usize) -> (r: usize)
    requires
        off <= s.len() < usize::MAX,
    ensures
        r == line_at(s@, off as int),
{
    let mut count: usize = 0;
    let mut i: usize = 0;
    while i < off
        invariant
            i <= off <= s.len() < usize::MAX,
            count == newlines(s@.take(i as int)),
            count <= i,
        decreases off - i,
    {
        proof {
            assert(s@.take(i + 1).drop_last() =~= s@.take(i as int));
        }
        if s[i] == '\n' {
            count = count + 1;
        }
        i = i + 1;
    }
    count + 1
}

/// Parses dump text into its command sequence.
pub fn parse(input: &str) -> (r: Result<ValueChangeDumpDefinition, SyntaxError>)
    requires
        input@.len() < usize::MAX,
    ensures
        parse_result_view(r) == parse_spec(input@),
{
    let s = chars_of(input);
    let sp = tokenize(&s);
    match read_definition(&s, &sp) {
        Ok(d) => Ok(d),
        Err(k) => {
            proof {
                lemma_words(s@, sp@);
                if k < sp.len() {
                    assert(span_view(sp@)[k as int] == (sp@[k as int].0 as int, sp@[k as int].1 as int));
                }
            }
            let off = if k < sp.len() {
                sp[k].0
            } else {
                s.len()
            };
            let line = line_of(&s, off);
            Err(SyntaxError { offset: off, line })
        },
    }
}

/// The parser of dump text.
pub struct ValueChangeDumpParser;

impl ValueChangeDumpParser {
    /// Parses dump text into its command sequence.
    pub fn parse(input: &str) -> (r: Result<ValueChangeDumpDefinition, SyntaxError>)
        requires
            input@.len() < usize::MAX,
        ensures
            parse_result_view(r) == parse_spec(input@),
    {
        parse(input)
    }
}

} // verus!
