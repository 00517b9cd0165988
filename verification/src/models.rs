//! The list of models: which are shown, in which order, and how.

use crate::decimal;
use crate::order;
use crate::order::SortKey;
use crate::text;
use vstd::prelude::*;

verus! {

broadcast use vstd::string::group_string_axioms;

/// What a model takes as input.
#[derive(Debug, Clone, Copy, PartialEq, Eq, Structural)]
pub enum InputType {
    /// Text.
    Text,
    /// Images.
    Image,
}

/// A model.
#[derive(Debug, Clone)]
pub struct Model {
    /// Who provides it.
    pub provider: String,
    /// Its id.
    pub id: String,
    /// How many tokens it can look at.
    pub context_window: u32,
    /// How many tokens it can write.
    pub max_tokens: u32,
    /// Whether it can think.
    pub reasoning: bool,
    /// What it takes as input.
    pub input: Vec<InputType>,
}

/// A model that is available.
#[derive(Debug, Clone)]
pub struct ModelEntry {
    /// The model.
    pub model: Model,
}

/// What a model says.
#[verifier::ext_equal]
pub struct ModelView {
    /// Who provides it.
    pub provider: Seq<char>,
    /// Its id.
    pub id: Seq<char>,
    /// How many tokens it can look at.
    pub context_window: u32,
    /// How many tokens it can write.
    pub max_tokens: u32,
    /// Whether it can think.
    pub reasoning: bool,
    /// What it takes as input.
    pub input: Seq<InputType>,
}

impl View for ModelEntry {
    type V = ModelView;

    open spec fn view(&self) -> ModelView {
        ModelView {
            provider: self.model.provider@,
            id: self.model.id@,
            context_window: self.model.context_window,
            max_tokens: self.model.max_tokens,
            reasoning: self.model.reasoning,
            input: self.model.input@,
        }
    }
}

/// What each model of a sequence says.
pub open spec fn model_views(v: Seq<ModelEntry>) -> Seq<ModelView> {
    Seq::new(v.len(), |i: int| v[i]@)
}

impl ModelEntry {
    /// Another entry that says the same.
    pub fn duplicate(&self) -> (r: ModelEntry)
        ensures
            r@ == self@,
    {
        ModelEntry {
            model: Model {
                provider: self.model.provider.clone(),
                id: self.model.id.clone(),
                context_window: self.model.context_window,
                max_tokens: self.model.max_tokens,
                reasoning: self.model.reasoning,
                input: vstd::slice::slice_to_vec(self.model.input.as_slice()),
            },
        }
    }
}

// ----------------------------------------------------------------------------
// Fuzzy matching
// ----------------------------------------------------------------------------

/// Whether the characters of `needle` stand in `hay` in the same order, perhaps with others
/// between them.
pub open spec fn subsequence(needle: Seq<char>, hay: Seq<char>) -> bool
    decreases hay.len(),
{
    if needle.len() == 0 {
        true
    } else if hay.len() == 0 {
        false
    } else if needle[0] == hay[0] {
        subsequence(needle.drop_first(), hay.drop_first())
    } else {
        subsequence(needle, hay.drop_first())
    }
}

/// A text without its white space.
pub open spec fn dense(s: Seq<char>) -> Seq<char> {
    s.filter(|c: char| !text::white_space(c))
}

/// Whether a pattern fits a value: without regard to case, and without the white space of the
/// pattern, its characters stand in the value in the same order.
pub open spec fn fuzzy(pattern: Seq<char>, value: Seq<char>) -> bool {
    subsequence(dense(text::lowercase(pattern)), text::lowercase(value))
}

fn without_space(cs: &[char]) -> (r: Vec<char>)
    ensures
        r@ == dense(cs@),
{
    let ghost keep = |c: char| !text::white_space(c);
    let mut out: Vec<char> = Vec::new();
    let mut i: usize = 0;
    while i < cs.len()
        invariant
            i <= cs@.len(),
            keep == (|c: char| !text::white_space(c)),
            out@ == cs@.take(i as int).filter(keep),
        decreases cs@.len() - i,
    {
        proof {
            reveal(Seq::filter);
            assert(cs@.take(i + 1).drop_last() =~= cs@.take(i as int));
        }
        if !text::is_white_space(cs[i]) {
            out.push(cs[i]);
        }
        i = i + 1;
    }
    assert(cs@.take(cs@.len() as int) =~= cs@);
    out
}

fn is_subsequence(needle: &[char], hay: &[char]) -> (r: bool)
    ensures
        r == subsequence(needle@, hay@),
{
    let mut i: usize = 0;
    let mut j: usize = 0;
    assert(needle@.skip(0) =~= needle@);
    assert(hay@.skip(0) =~= hay@);
    while i < needle.len() && j < hay.len()
        invariant
            i <= needle@.len(),
            j <= hay@.len(),
            subsequence(needle@, hay@) == subsequence(
                needle@.skip(i as int),
                hay@.skip(j as int),
            ),
        decreases hay@.len() - j,
    {
        assert(needle@.skip(i as int).drop_first() =~= needle@.skip(i + 1));
        assert(hay@.skip(j as int).drop_first() =~= hay@.skip(j + 1));
        if needle[i] == hay[j] {
            i = i + 1;
        }
        j = j + 1;
    }
    i == needle.len()
}

/// Whether a pattern fits a value.
pub fn fuzzy_match(pattern: &str, value: &str) -> (r: bool)
    ensures
        r == fuzzy(pattern@, value@),
{
    let needle = text::chars_of(text::to_lowercase(pattern).as_str());
    let hay = text::chars_of(text::to_lowercase(value).as_str());
    is_subsequence(without_space(needle.as_slice()).as_slice(), hay.as_slice())
}

// ----------------------------------------------------------------------------
// Token counts
// ----------------------------------------------------------------------------

/// The whole number nearest to `n / d`. Of two that are equally near, the even one.
pub open spec fn nearest(n: int, d: int) -> int {
    let q = n / d;
    let twice = 2 * (n % d);
    if twice < d || twice == d && q % 2 == 0 {
        q
    } else {
        q + 1
    }
}

/// How often `unit` can be doubled without exceeding `count`.
pub open spec fn doublings(count: nat, unit: nat) -> nat
    decreases count - unit,
{
    if unit == 0 || count < 2 * unit {
        0
    } else {
        1 + doublings(count, 2 * unit)
    }
}

/// How many binary places the double-precision quotient of `count` and `unit` has, where `unit`
/// is not greater than `count`.
pub open spec fn binary_places(count: nat, unit: nat) -> nat {
    (52 - doublings(count, unit)) as nat
}

/// The tenths of the double-precision quotient of `count` and `unit`, where `unit` is not greater
/// than `count`.
///
/// The quotient is rounded to 53 significant binary digits first, and then to one decimal place.
pub open spec fn tenths(count: nat, unit: nat) -> int {
    let scale = vstd::arithmetic::power2::pow2(binary_places(count, unit)) as int;
    let quotient = nearest(count * scale, unit as int);
    nearest(10 * quotient, scale)
}

/// A number of tokens in units: with no decimal place where it is whole, and with one otherwise.
pub open spec fn in_units(count: nat, unit: nat) -> Seq<char> {
    if count % unit == 0 {
        decimal::numeral(count / unit)
    } else {
        let t = tenths(count, unit);
        decimal::numeral((t / 10) as nat) + "."@ + decimal::numeral((t % 10) as nat)
    }
}

/// A number of tokens as it is shown.
pub open spec fn token_count(count: u32) -> Seq<char> {
    if count >= 1_000_000 {
        in_units(count as nat, 1_000_000) + "M"@
    } else if count >= 1_000 {
        in_units(count as nat, 1_000) + "K"@
    } else {
        decimal::numeral(count as nat)
    }
}

fn nearest_whole(n: u128, d: u128) -> (r: u128)
    requires
        0 < d < 0x1_0000_0000_0000_0000,
        n < 0x100_0000_0000_0000_0000_0000_0000,
    ensures
        r == nearest(n as int, d as int),
{
    let q: u128 = n / d;
    let twice: u128 = 2 * (n % d);
    if twice < d || twice == d && q % 2 == 0 {
        q
    } else {
        q + 1
    }
}

fn tenths_of(count: u32, unit: u32) -> (r: u64)
    requires
        0 < unit <= count,
    ensures
        r == tenths(count as nat, unit as nat),
{
    proof {
        vstd::arithmetic::power2::lemma2_to64();
        vstd::arithmetic::power2::lemma2_to64_rest();
    }
    let mut scale: u64 = 0x10_0000_0000_0000;
    let mut doubled: u64 = unit as u64;
    let ghost mut e: nat = 0;
    while 2 * doubled <= count as u64
        invariant
            0 < unit <= count,
            e <= 31,
            vstd::arithmetic::power2::pow2(e) <= doubled <= count,
            scale == vstd::arithmetic::power2::pow2((52 - e) as nat),
            0 < scale <= 0x10_0000_0000_0000,
            doublings(count as nat, unit as nat) == e + doublings(count as nat, doubled as nat),
        decreases count - doubled,
    {
        proof {
            vstd::arithmetic::power2::lemma2_to64();
            vstd::arithmetic::power2::lemma_pow2_unfold((e + 1) as nat);
            vstd::arithmetic::power2::lemma_pow2_unfold((52 - e) as nat);
            vstd::arithmetic::power2::lemma_pow2_pos((51 - e) as nat);
            if e == 31 {
                assert(vstd::arithmetic::power2::pow2(32) <= count);
            }
        }
        doubled = 2 * doubled;
        scale = scale / 2;
        proof {
            e = e + 1;
        }
    }
    assert(count as int * scale as int <= 0xffff_ffff * 0x10_0000_0000_0000) by (nonlinear_arith)
        requires
            0 <= count <= 0xffff_ffff,
            0 <= scale <= 0x10_0000_0000_0000,
    ;
    let quotient: u128 = nearest_whole(count as u128 * scale as u128, unit as u128);
    proof {
        let n = count as int * scale as int;
        let d = unit as int;
        assert(n / d <= n) by (nonlinear_arith)
            requires
                n >= 0,
                d > 0,
        ;
    }
    let t: u128 = nearest_whole(10 * quotient, scale as u128);
    proof {
        let c = count as int;
        let s = scale as int;
        let n = 10 * quotient as int;
        assert(n / s <= 10 * c + 10) by (nonlinear_arith)
            requires
                n <= 10 * (c * s + 1),
                s >= 1,
                c >= 0,
        ;
    }
    t as u64
}

fn push_units(out: &mut String, count: u32, unit: u32)
    requires
        0 < unit <= count,
    ensures
        final(out)@ == old(out)@ + in_units(count as nat, unit as nat),
{
    if count % unit == 0 {
        decimal::push_decimal(out, (count / unit) as u64);
    } else {
        let t: u64 = tenths_of(count, unit);
        decimal::push_decimal(out, t / 10);
        out.append(".");
        decimal::push_decimal(out, t % 10);
    }
}

/// A number of tokens as it is shown: in millions, in thousands, or as it is.
pub fn format_token_count(count: u32) -> (r: String)
    ensures
        r@ == token_count(count),
{
    let mut out = String::new();
    if count >= 1_000_000 {
        push_units(&mut out, count, 1_000_000);
        out.append("M");
    } else if count >= 1_000 {
        push_units(&mut out, count, 1_000);
        out.append("K");
    } else {
        decimal::push_decimal(&mut out, count as u64);
    }
    out
}

// ----------------------------------------------------------------------------
// The table
// ----------------------------------------------------------------------------

/// What a table shows in one cell for a flag.
pub open spec fn yes_no(flag: bool) -> Seq<char> {
    if flag {
        "yes"@
    } else {
        "no"@
    }
}

/// The row of the table for a model.
pub open spec fn model_row(m: ModelView) -> Seq<Seq<char>> {
    seq![
        m.provider,
        m.id,
        token_count(m.context_window),
        token_count(m.max_tokens),
        yes_no(m.reasoning),
        yes_no(m.input.contains(InputType::Image)),
    ]
}

/// The rows of the table for models.
pub open spec fn model_rows(models: Seq<ModelView>) -> Seq<Seq<Seq<char>>> {
    Seq::new(models.len(), |i: int| model_row(models[i]))
}

/// The first row of the table.
pub open spec fn header_row() -> Seq<Seq<char>> {
    seq!["provider"@, "model"@, "context"@, "max-out"@, "thinking"@, "images"@]
}

/// The width of a column: the number of bytes of its longest cell.
pub open spec fn column_width(rows: Seq<Seq<Seq<char>>>, column: int) -> nat
    decreases rows.len(),
{
    if rows.len() == 0 {
        0
    } else {
        let before = column_width(rows.drop_last(), column);
        let here = vstd::utf8::encode_utf8(rows.last()[column]).len();
        if here > before {
            here
        } else {
            before
        }
    }
}

/// A cell, filled up with spaces to a number of characters.
pub open spec fn padded(cell: Seq<char>, width: nat) -> Seq<char> {
    if cell.len() < width {
        cell + Seq::new((width - cell.len()) as nat, |i: int| ' ')
    } else {
        cell
    }
}

/// A row of the table up to some column, with two spaces between columns.
pub open spec fn row_text(
    row: Seq<Seq<char>>,
    rows: Seq<Seq<Seq<char>>>,
    columns: nat,
) -> Seq<char>
    decreases columns,
{
    if columns == 0 {
        Seq::empty()
    } else {
        let last = (columns - 1) as nat;
        let cell = padded(row[last as int], column_width(rows, last as int));
        if last == 0 {
            cell
        } else {
            row_text(row, rows, last) + "  "@ + cell
        }
    }
}

/// The first `n` rows of the table, one per line.
pub open spec fn rows_text(rows: Seq<Seq<Seq<char>>>, n: nat) -> Seq<char>
    decreases n,
{
    if n == 0 {
        Seq::empty()
    } else {
        rows_text(rows, (n - 1) as nat) + row_text(rows[n - 1], rows, 6) + "\n"@
    }
}

/// The table for models, with a first row that names the columns.
pub open spec fn table_text(rows: Seq<Seq<Seq<char>>>) -> Seq<char> {
    let all = seq![header_row()] + rows;
    rows_text(all, all.len())
}

/// What a row of cells says.
pub open spec fn cells(row: [String; 6]) -> Seq<Seq<char>> {
    text::texts(row@)
}

/// What rows of cells say.
pub open spec fn cell_rows(rows: Seq<[String; 6]>) -> Seq<Seq<Seq<char>>> {
    Seq::new(rows.len(), |i: int| cells(rows[i]))
}

fn yes_or_no(flag: bool) -> (r: String)
    ensures
        r@ == yes_no(flag),
{
    if flag {
        "yes".to_owned()
    } else {
        "no".to_owned()
    }
}

fn takes_images(input: &Vec<InputType>) -> (r: bool)
    ensures
        r == input@.contains(InputType::Image),
{
    let mut i: usize = 0;
    while i < input.len()
        invariant
            i <= input.len(),
            forall|j: int| 0 <= j < i ==> #[trigger] input@[j] != InputType::Image,
        decreases input.len() - i,
    {
        if input[i] == InputType::Image {
            return true;
        }
        i = i + 1;
    }
    false
}

/// The rows of the table for models.
pub fn build_model_rows(models: &[ModelEntry]) -> (r: Vec<[String; 6]>)
    ensures
        cell_rows(r@) == model_rows(model_views(models@)),
{
    let mut rows: Vec<[String; 6]> = Vec::new();
    let mut i: usize = 0;
    while i < models.len()
        invariant
            i <= models@.len(),
            rows@.len() == i,
            forall|j: int| 0 <= j < i ==> cells(#[trigger] rows@[j]) == model_row(models@[j]@),
        decreases models@.len() - i,
    {
        let m = &models[i].model;
        let row = [
            m.provider.clone(),
            m.id.clone(),
            format_token_count(m.context_window),
            format_token_count(m.max_tokens),
            yes_or_no(m.reasoning),
            yes_or_no(takes_images(&m.input)),
        ];
        rows.push(row);
        i = i + 1;
    }
    rows
}

fn width_of_column(header: &[String; 6], rows: &[[String; 6]], column: usize) -> (r: usize)
    requires
        column < 6,
    ensures
        r == column_width(seq![cells(*header)] + cell_rows(rows@), column as int),
{
    let ghost all = seq![cells(*header)] + cell_rows(rows@);
    let mut width: usize = header[column].as_str().as_bytes().len();
    let mut i: usize = 0;
    assert(column_width(all.take(1).drop_last(), column as int) == 0);
    while i < rows.len()
        invariant
            i <= rows@.len(),
            column < 6,
            all == seq![cells(*header)] + cell_rows(rows@),
            width == column_width(all.take(i + 1), column as int),
        decreases rows@.len() - i,
    {
        let row = &rows[i];
        assert(all.take(i + 2).drop_last() =~= all.take(i + 1));
        let here: usize = row[column].as_str().as_bytes().len();
        if here > width {
            width = here;
        }
        i = i + 1;
    }
    assert(all.take(all.len() as int) =~= all);
    width
}

fn push_padded(out: &mut String, cell: &str, width: usize)
    ensures
        final(out)@ == old(out)@ + padded(cell@, width as nat),
{
    out.append(cell);
    let n = text::chars_of(cell).len();
    let ghost start = out@;
    let mut k: usize = n;
    while k < width
        invariant
            n == cell@.len(),
            n <= k,
            n < width ==> k <= width,
            n >= width ==> k == n,
            out@ == start + Seq::new((k - n) as nat, |i: int| ' '),
        decreases width - k,
    {
        out.push(' ');
        k = k + 1;
    }
}

fn push_row(out: &mut String, row: &[String; 6], widths: &Vec<usize>, rows: Ghost<
    Seq<Seq<Seq<char>>>,
>)
    requires
        widths@.len() == 6,
        forall|c: int| 0 <= c < 6 ==> #[trigger] widths@[c] == column_width(rows@, c),
    ensures
        final(out)@ == old(out)@ + row_text(cells(*row), rows@, 6) + "\n"@,
{
    let ghost start = out@;
    let mut c: usize = 0;
    while c < 6
        invariant
            c <= 6,
            widths@.len() == 6,
            forall|c: int| 0 <= c < 6 ==> #[trigger] widths@[c] == column_width(rows@, c),
            out@ == start + row_text(cells(*row), rows@, c as nat),
        decreases 6 - c,
    {
        if c > 0 {
            out.append("  ");
        }
        push_padded(out, row[c].as_str(), widths[c]);
        c = c + 1;
    }
    out.append("\n");
}

/// The table for rows of cells, with a first row that names the columns.
///
/// Columns are as wide as their longest cell, and have two spaces between them.
pub fn print_model_table(rows: &[[String; 6]]) -> (r: String)
    ensures
        r@ == table_text(cell_rows(rows@)),
{
    let header = [
        "provider".to_owned(),
        "model".to_owned(),
        "context".to_owned(),
        "max-out".to_owned(),
        "thinking".to_owned(),
        "images".to_owned(),
    ];
    assert(cells(header) =~= header_row());
    let ghost all = seq![cells(header)] + cell_rows(rows@);
    let mut widths: Vec<usize> = Vec::new();
    let mut c: usize = 0;
    while c < 6
        invariant
            c <= 6,
            all == seq![cells(header)] + cell_rows(rows@),
            widths@.len() == c,
            forall|d: int| 0 <= d < c ==> #[trigger] widths@[d] == column_width(all, d),
        decreases 6 - c,
    {
        widths.push(width_of_column(&header, rows, c));
        c = c + 1;
    }
    let mut out = String::new();
    push_row(&mut out, &header, &widths, Ghost(all));
    assert(rows_text(all, 0) =~= Seq::<char>::empty());
    let mut i: usize = 0;
    while i < rows.len()
        invariant
            i <= rows@.len(),
            all == seq![cells(header)] + cell_rows(rows@),
            widths@.len() == 6,
            forall|d: int| 0 <= d < 6 ==> #[trigger] widths@[d] == column_width(all, d),
            out@ == rows_text(all, (i + 1) as nat),
        decreases rows@.len() - i,
    {
        push_row(&mut out, &rows[i], &widths, Ghost(all));
        i = i + 1;
    }
    out
}

// ----------------------------------------------------------------------------
// The list
// ----------------------------------------------------------------------------

/// What a pattern is held against for a model.
pub open spec fn search_text(m: ModelView) -> Seq<char> {
    m.provider + " "@ + m.id
}

/// The models that a pattern fits, in the same order.
pub open spec fn fitting_models(models: Seq<ModelView>, pattern: Seq<char>) -> Seq<ModelView> {
    models.filter(|m: ModelView| fuzzy(pattern, search_text(m)))
}

/// What decides the place of a model: its provider, then its id.
pub open spec fn model_key(m: ModelView) -> order::Key {
    order::Key { score: 0, preferred: false, first: m.provider, second: m.id }
}

/// Models, sorted by provider and id.
pub open spec fn sorted_models(models: Seq<ModelView>) -> Seq<ModelView> {
    let by_name = order::stable_order(Seq::new(models.len(), |i: int| model_key(models[i])));
    Seq::new(by_name.len(), |p: int| models[by_name[p] as int])
}

/// What is shown where models are asked for.
pub open spec fn listing(models: Seq<ModelView>, pattern: Option<Seq<char>>) -> Seq<char> {
    if models.len() == 0 {
        "No models available. Set API keys in environment variables.\n"@
    } else {
        match pattern {
            Some(p) => if fitting_models(models, p).len() == 0 {
                "No models matching \""@ + p + "\"\n"@
            } else {
                table_text(model_rows(sorted_models(fitting_models(models, p))))
            },
            None => table_text(model_rows(sorted_models(models))),
        }
    }
}

/// The models that a pattern fits, in the same order.
pub fn filter_models_by_pattern(models: &[ModelEntry], pattern: &str) -> (r: Vec<ModelEntry>)
    ensures
        model_views(r@) == fitting_models(model_views(models@), pattern@),
{
    let ghost all = model_views(models@);
    let ghost keep = |m: ModelView| fuzzy(pattern@, search_text(m));
    let mut out: Vec<ModelEntry> = Vec::new();
    let mut i: usize = 0;
    while i < models.len()
        invariant
            i <= models@.len(),
            all == model_views(models@),
            keep == (|m: ModelView| fuzzy(pattern@, search_text(m))),
            model_views(out@) == all.take(i as int).filter(keep),
        decreases models@.len() - i,
    {
        let entry = &models[i];
        proof {
            reveal(Seq::filter);
            assert(all.take(i + 1).drop_last() =~= all.take(i as int));
        }
        let value = text::concat3(entry.model.provider.as_str(), " ", entry.model.id.as_str());
        if fuzzy_match(pattern, value.as_str()) {
            let copy = entry.duplicate();
            out.push(copy);
        }
        i = i + 1;
    }
    assert(all.take(all.len() as int) =~= all);
    out
}

fn sort_models(models: &[ModelEntry]) -> (r: Vec<ModelEntry>)
    ensures
        model_views(r@) == sorted_models(model_views(models@)),
{
    let ghost all = model_views(models@);
    let ghost ks = Seq::new(all.len(), |i: int| model_key(all[i]));
    let mut keys: Vec<SortKey> = Vec::new();
    let mut i: usize = 0;
    while i < models.len()
        invariant
            i <= models@.len(),
            all == model_views(models@),
            keys@.len() == i,
            forall|k: int| 0 <= k < i ==> (#[trigger] keys@[k])@ == model_key(all[k]),
        decreases models@.len() - i,
    {
        keys.push(
            SortKey {
                score: 0,
                preferred: false,
                first: text::chars_of(models[i].model.provider.as_str()),
                second: text::chars_of(models[i].model.id.as_str()),
            },
        );
        i = i + 1;
    }
    assert(order::key_views(keys@) =~= ks);
    let by_name = order::sort_indices(&keys);
    let ghost sorted = sorted_models(all);
    let mut out: Vec<ModelEntry> = Vec::new();
    let mut p: usize = 0;
    while p < by_name.len()
        invariant
            p <= by_name.len(),
            all == model_views(models@),
            ks == Seq::new(all.len(), |i: int| model_key(all[i])),
            by_name@ == order::stable_order(ks),
            order::is_stable_order(ks, by_name@),
            sorted == sorted_models(all),
            out@.len() == p,
            forall|j: int| 0 <= j < p ==> (#[trigger] out@[j])@ == sorted[j],
        decreases by_name.len() - p,
    {
        let k: usize = by_name[p];
        out.push(models[k].duplicate());
        p = p + 1;
    }
    out
}

/// What is shown where models are asked for: the available models that the pattern fits, sorted
/// by provider and id.
pub fn list_models(available: &[ModelEntry], pattern: Option<&str>) -> (r: String)
    ensures
        r@ == listing(model_views(available@), text::opt_str(pattern)),
{
    if available.len() == 0 {
        return "No models available. Set API keys in environment variables.\n".to_owned();
    }
    let sorted = match pattern {
        Some(p) => {
            let fitting = filter_models_by_pattern(available, p);
            if fitting.len() == 0 {
                return text::concat3("No models matching \"", p, "\"\n");
            }
            sort_models(fitting.as_slice())
        },
        None => sort_models(available),
    };
    let rows = build_model_rows(sorted.as_slice());
    print_model_table(rows.as_slice())
}

// ----------------------------------------------------------------------------
// Laws
// ----------------------------------------------------------------------------

/// Whether `places` are ascending positions in `hay` at which the characters of `needle` stand.
pub open spec fn placed(needle: Seq<char>, hay: Seq<char>, places: Seq<int>) -> bool {
    &&& places.len() == needle.len()
    &&& forall|i: int| 0 <= i < places.len() ==> 0 <= #[trigger] places[i] < hay.len()
    &&& forall|i: int| 0 <= i < places.len() ==> hay[#[trigger] places[i]] == needle[i]
    &&& forall|i: int, j: int|
        0 <= i < j < places.len() ==> #[trigger] places[i] < #[trigger] places[j]
}

/// A pattern fits where its characters can be found at ascending positions, and only there.
pub proof fn law_subsequence_has_places(needle: Seq<char>, hay: Seq<char>)
    ensures
        subsequence(needle, hay) <==> exists|places: Seq<int>| placed(needle, hay, places),
{
    if subsequence(needle, hay) {
        lemma_places_of(needle, hay);
    }
    if exists|places: Seq<int>| placed(needle, hay, places) {
        let places = choose|places: Seq<int>| placed(needle, hay, places);
        lemma_places_suffice(needle, hay, places);
    }
}

proof fn lemma_places_of(needle: Seq<char>, hay: Seq<char>)
    requires
        subsequence(needle, hay),
    ensures
        exists|places: Seq<int>| placed(needle, hay, places),
    decreases hay.len(),
{
    if needle.len() == 0 {
        assert(placed(needle, hay, Seq::<int>::empty()));
    } else if needle[0] == hay[0] {
        lemma_places_of(needle.drop_first(), hay.drop_first());
        let rest = choose|places: Seq<int>|
            placed(needle.drop_first(), hay.drop_first(), places);
        let places = seq![0int] + Seq::new(rest.len(), |i: int| rest[i] + 1);
        assert(placed(needle, hay, places));
    } else {
        lemma_places_of(needle, hay.drop_first());
        let rest = choose|places: Seq<int>| placed(needle, hay.drop_first(), places);
        let places = Seq::new(rest.len(), |i: int| rest[i] + 1);
        assert(placed(needle, hay, places));
    }
}

proof fn lemma_places_suffice(needle: Seq<char>, hay: Seq<char>, places: Seq<int>)
    requires
        placed(needle, hay, places),
    ensures
        subsequence(needle, hay),
    decreases hay.len(),
{
    if needle.len() > 0 {
        assert(0 <= places[0] < hay.len());
        if needle[0] == hay[0] {
            let rest = Seq::new((places.len() - 1) as nat, |i: int| places[i + 1] - 1);
            lemma_places_suffice(needle.drop_first(), hay.drop_first(), rest);
        } else {
            let rest = Seq::new(places.len(), |i: int| places[i] - 1);
            lemma_places_suffice(needle, hay.drop_first(), rest);
        }
    }
}

proof fn lemma_dense_fits(s: Seq<char>)
    ensures
        subsequence(dense(s), s),
{
    let places = lemma_dense_places(s);
    lemma_places_suffice(dense(s), s, places);
}

proof fn lemma_dense_places(s: Seq<char>) -> (places: Seq<int>)
    ensures
        placed(dense(s), s, places),
    decreases s.len(),
{
    reveal(Seq::filter);
    if s.len() == 0 {
        Seq::<int>::empty()
    } else {
        let front = s.drop_last();
        let before = lemma_dense_places(front);
        if text::white_space(s.last()) {
            before
        } else {
            let places = before.push(s.len() - 1);
            places
        }
    }
}

/// Every value fits itself.
pub proof fn law_value_fits_itself(value: Seq<char>)
    ensures
        fuzzy(value, value),
{
    lemma_dense_fits(text::lowercase(value));
}

/// A pattern of ASCII white space fits every value.
pub proof fn law_blank_pattern_fits_all(pattern: Seq<char>, value: Seq<char>)
    requires
        text::blank(pattern),
        vstd::utf8::is_ascii_chars(pattern),
    ensures
        fuzzy(pattern, value),
{
    let low = text::lowercase(pattern);
    assert(low =~= pattern);
    lemma_dense_of_blank(pattern);
}

proof fn lemma_dense_of_blank(s: Seq<char>)
    requires
        text::blank(s),
    ensures
        dense(s) == Seq::<char>::empty(),
    decreases s.len(),
{
    reveal(Seq::filter);
    if s.len() > 0 {
        lemma_dense_of_blank(s.drop_last());
    }
}

/// What fits a value fits every longer value that begins with it or ends in it.
pub proof fn law_longer_values_still_fit(
    needle: Seq<char>,
    before: Seq<char>,
    hay: Seq<char>,
    after: Seq<char>,
)
    requires
        subsequence(needle, hay),
    ensures
        subsequence(needle, before + hay + after),
{
    let long = before + hay + after;
    law_subsequence_has_places(needle, hay);
    law_subsequence_has_places(needle, long);
    let places = choose|places: Seq<int>| placed(needle, hay, places);
    let moved = Seq::new(places.len(), |i: int| places[i] + before.len());
    assert(placed(needle, long, moved));
}

proof fn lemma_doublings(count: nat, unit: nat)
    requires
        0 < unit <= count,
    ensures
        vstd::arithmetic::power2::pow2(doublings(count, unit)) * unit <= count,
    decreases count - unit,
{
    vstd::arithmetic::power2::lemma2_to64();
    if count >= 2 * unit {
        lemma_doublings(count, 2 * unit);
        let d = doublings(count, 2 * unit);
        let p = vstd::arithmetic::power2::pow2(d);
        vstd::arithmetic::power2::lemma_pow2_unfold(d + 1);
        let twice = vstd::arithmetic::power2::pow2(d + 1);
        assert(twice * unit == p * (2 * unit)) by (nonlinear_arith)
            requires
                twice == 2 * p,
        ;
    } else {
        assert(doublings(count, unit) == 0);
    }
}

proof fn lemma_nearest(n: int, d: int)
    requires
        d > 0,
    ensures
        2 * (nearest(n, d) * d - n) <= d,
        2 * (n - nearest(n, d) * d) <= d,
{
    let q = n / d;
    let r = n % d;
    assert(n == q * d + r && 0 <= r < d) by (nonlinear_arith)
        requires
            d > 0,
            q == n / d,
            r == n % d,
    ;
    assert((q + 1) * d == q * d + d) by (nonlinear_arith);
}

/// A number of tokens that is shown with one decimal place is off by half a tenth of the unit at
/// most.
pub proof fn law_shown_tenths_are_close(count: nat, unit: nat)
    requires
        unit == 1_000 || unit == 1_000_000,
        unit <= count <= u32::MAX,
    ensures
        2 * (tenths(count, unit) * unit - 10 * count) <= unit,
        2 * (10 * count - tenths(count, unit) * unit) <= unit,
{
    let d = doublings(count, unit);
    let s = vstd::arithmetic::power2::pow2(binary_places(count, unit)) as int;
    let u = unit as int;
    let c = count as int;
    vstd::arithmetic::power2::lemma2_to64();
    vstd::arithmetic::power2::lemma2_to64_rest();
    lemma_doublings(count, unit);
    let p = vstd::arithmetic::power2::pow2(d);
    assert(d <= 22) by {
        if d > 22 {
            if d > 23 {
                vstd::arithmetic::power2::lemma_pow2_strictly_increases(23, d);
            }
            assert(p >= 0x80_0000);
            assert(p * unit >= 0x80_0000 * 1000) by (nonlinear_arith)
                requires
                    p >= 0x80_0000,
                    unit >= 1000,
            ;
        }
    }
    assert(s >= 0x4000_0000) by {
        if d < 22 {
            vstd::arithmetic::power2::lemma_pow2_strictly_increases(30, (52 - d) as nat);
        }
    }
    let m = nearest(c * s, u);
    let t = nearest(10 * m, s);
    lemma_nearest(c * s, u);
    lemma_nearest(10 * m, s);
    let x = t * u - 10 * c;
    assert(2 * x * s == u * (2 * (t * s - 10 * m)) + 10 * (2 * (m * u - c * s)))
        by (nonlinear_arith)
        requires
            x == t * u - 10 * c,
    ;
    assert(u * (2 * (t * s - 10 * m)) <= u * s) by (nonlinear_arith)
        requires
            2 * (t * s - 10 * m) <= s,
            u > 0,
    ;
    assert(u * (2 * (t * s - 10 * m)) >= -(u * s)) by (nonlinear_arith)
        requires
            2 * (10 * m - t * s) <= s,
            u > 0,
    ;
    assert(2 * x <= u && 2 * x >= -u) by (nonlinear_arith)
        requires
            2 * x * s <= u * s + 10 * u,
            2 * x * s >= -(u * s) - 10 * u,
            s > 10 * u,
            u > 0,
    ;
}

/// A number of tokens that is a whole number of thousands, but not of millions or more, is shown
/// without decimal places.
pub proof fn law_whole_thousands_are_shown_whole(k: nat)
    requires
        1 <= k < 1_000,
    ensures
        token_count((1_000 * k) as u32) == decimal::numeral(k) + "K"@,
{
}

/// The list is sorted: by provider, and by id among those of one provider. It holds every model.
pub proof fn law_list_is_sorted(models: Seq<ModelView>)
    requires
        models.len() <= usize::MAX,
    ensures
        sorted_models(models).len() == models.len(),
        forall|i: int|
            0 <= i < models.len() ==> sorted_models(models).contains(#[trigger] models[i]),
        forall|p: int, q: int|
            0 <= p < q < models.len() ==> !order::key_before(
                model_key(#[trigger] sorted_models(models)[q]),
                model_key(#[trigger] sorted_models(models)[p]),
            ),
{
    let keys = Seq::new(models.len(), |i: int| model_key(models[i]));
    let by_name = order::stable_order(keys);
    let sorted = sorted_models(models);
    order::law_stable_order_exists(keys);
    assert forall|i: int| 0 <= i < models.len() implies sorted.contains(#[trigger] models[i]) by {
        assert(by_name.contains(i as usize));
        let p = choose|p: int| 0 <= p < by_name.len() && by_name[p] == i as usize;
        assert(sorted[p] == models[i]);
    }
    assert forall|p: int, q: int| 0 <= p < q < models.len() implies !order::key_before(
        model_key(#[trigger] sorted[q]),
        model_key(#[trigger] sorted[p]),
    ) by {
        let a = keys[by_name[p] as int];
        let b = keys[by_name[q] as int];
        assert(order::item_leq(keys, by_name[p], by_name[q]));
        order::lemma_key_before_irreflexive(a);
        if order::key_before(a, b) && order::key_before(b, a) {
            order::lemma_key_before_transitive(a, b, a);
        }
    }
}

/// Whether `places` gives each character of `pattern` that is no white space a place in `hay` at
/// which it stands, in ascending order.
pub open spec fn scattered(pattern: Seq<char>, hay: Seq<char>, places: Seq<int>) -> bool {
    &&& places.len() == pattern.len()
    &&& forall|i: int|
        0 <= i < pattern.len() && !text::white_space(pattern[i]) ==> 0 <= #[trigger] places[i]
            < hay.len() && hay[places[i]] == pattern[i]
    &&& forall|i: int, j: int|
        0 <= i < j < pattern.len() && !text::white_space(pattern[i]) && !text::white_space(
            pattern[j],
        ) ==> #[trigger] places[i] < #[trigger] places[j]
}

proof fn lemma_scatter(pattern: Seq<char>, hay: Seq<char>, dense_places: Seq<int>) -> (places: Seq<
    int,
>)
    requires
        placed(dense(pattern), hay, dense_places),
    ensures
        scattered(pattern, hay, places),
        forall|i: int|
            0 <= i < pattern.len() && !text::white_space(pattern[i]) ==> dense_places.contains(
                #[trigger] places[i],
            ),
    decreases pattern.len(),
{
    reveal(Seq::filter);
    if pattern.len() == 0 {
        Seq::<int>::empty()
    } else {
        let front = pattern.drop_last();
        if text::white_space(pattern.last()) {
            let before = lemma_scatter(front, hay, dense_places);
            let places = before.push(0);
            assert forall|i: int|
                0 <= i < pattern.len() && !text::white_space(pattern[i]) implies 0
                <= #[trigger] places[i] < hay.len() && hay[places[i]] == pattern[i]
                && dense_places.contains(places[i]) by {
                assert(front[i] == pattern[i]);
                assert(before[i] == places[i]);
            }
            assert forall|i: int, j: int|
                0 <= i < j < pattern.len() && !text::white_space(pattern[i]) && !text::white_space(
                    pattern[j],
                ) implies #[trigger] places[i] < #[trigger] places[j] by {
                assert(front[i] == pattern[i] && front[j] == pattern[j]);
                assert(before[i] == places[i] && before[j] == places[j]);
            }
            places
        } else {
            let shorter = dense_places.drop_last();
            assert(dense(pattern) == dense(front).push(pattern.last()));
            assert(placed(dense(front), hay, shorter)) by {
                assert forall|i: int| 0 <= i < shorter.len() implies 0 <= #[trigger] shorter[i]
                    < hay.len() && hay[shorter[i]] == dense(front)[i] by {
                    assert(shorter[i] == dense_places[i]);
                    assert(dense(pattern)[i] == dense(front)[i]);
                }
                assert forall|i: int, j: int| 0 <= i < j < shorter.len() implies #[trigger] shorter[i]
                    < #[trigger] shorter[j] by {
                    assert(shorter[i] == dense_places[i] && shorter[j] == dense_places[j]);
                }
            }
            let before = lemma_scatter(front, hay, shorter);
            let last = dense_places.last();
            let places = before.push(last);
            assert(dense_places[dense_places.len() - 1] == last);
            assert forall|i: int|
                0 <= i < pattern.len() && !text::white_space(pattern[i]) implies 0
                <= #[trigger] places[i] < hay.len() && hay[places[i]] == pattern[i]
                && dense_places.contains(places[i]) && (i < front.len() ==> places[i] < last) by {
                if i < front.len() {
                    assert(front[i] == pattern[i]);
                    assert(before[i] == places[i]);
                    assert(shorter.contains(before[i]));
                    let k = choose|k: int| 0 <= k < shorter.len() && shorter[k] == before[i];
                    assert(dense_places[k] == before[i]);
                    assert(dense_places[k] < dense_places[dense_places.len() - 1]);
                }
            }
            assert forall|i: int, j: int|
                0 <= i < j < pattern.len() && !text::white_space(pattern[i]) && !text::white_space(
                    pattern[j],
                ) implies #[trigger] places[i] < #[trigger] places[j] by {
                if j < front.len() {
                    assert(front[i] == pattern[i] && front[j] == pattern[j]);
                    assert(before[i] == places[i] && before[j] == places[j]);
                }
            }
            places
        }
    }
}

spec fn some_place(pattern: Seq<char>, places: Seq<int>, place: int) -> bool {
    exists|i: int|
        0 <= i < pattern.len() && !text::white_space(pattern[i]) && #[trigger] places[i] == place
}

proof fn lemma_gather(pattern: Seq<char>, hay: Seq<char>, places: Seq<int>) -> (dense_places: Seq<
    int,
>)
    requires
        scattered(pattern, hay, places),
    ensures
        placed(dense(pattern), hay, dense_places),
        forall|k: int|
            0 <= k < dense_places.len() ==> some_place(pattern, places, #[trigger] dense_places[k]),
    decreases pattern.len(),
{
    reveal(Seq::filter);
    if pattern.len() == 0 {
        Seq::<int>::empty()
    } else {
        let front = pattern.drop_last();
        let fewer = places.drop_last();
        assert(scattered(front, hay, fewer)) by {
            assert forall|i: int|
                0 <= i < front.len() && !text::white_space(front[i]) implies 0
                <= #[trigger] fewer[i] < hay.len() && hay[fewer[i]] == front[i] by {
                assert(places[i] == fewer[i]);
            }
            assert forall|i: int, j: int|
                0 <= i < j < front.len() && !text::white_space(front[i]) && !text::white_space(
                    front[j],
                ) implies #[trigger] fewer[i] < #[trigger] fewer[j] by {
                assert(places[i] == fewer[i] && places[j] == fewer[j]);
            }
        }
        let before = lemma_gather(front, hay, fewer);
        let n = pattern.len() - 1;
        if text::white_space(pattern.last()) {
            assert forall|k: int| 0 <= k < before.len() implies some_place(
                pattern,
                places,
                #[trigger] before[k],
            ) by {
                assert(some_place(front, fewer, before[k]));
                let i = choose|i: int|
                    0 <= i < front.len() && !text::white_space(front[i]) && #[trigger] fewer[i]
                        == before[k];
                assert(places[i] == before[k]);
            }
            before
        } else {
            let all = before.push(places[n]);
            assert(dense(pattern) == dense(front).push(pattern.last()));
            assert forall|k: int| 0 <= k < all.len() implies some_place(
                pattern,
                places,
                #[trigger] all[k],
            ) by {
                if k < before.len() {
                    assert(some_place(front, fewer, before[k]));
                    let i = choose|i: int|
                        0 <= i < front.len() && !text::white_space(front[i]) && #[trigger] fewer[i]
                            == before[k];
                    assert(places[i] == all[k]);
                } else {
                    assert(places[n] == all[k]);
                }
            }
            assert forall|i: int, j: int| 0 <= i < j < all.len() implies #[trigger] all[i]
                < #[trigger] all[j] by {
                if j < before.len() {
                    assert(all[i] == before[i] && all[j] == before[j]);
                } else {
                    assert(some_place(front, fewer, before[i]));
                    let k = choose|k: int|
                        0 <= k < front.len() && !text::white_space(front[k]) && #[trigger] fewer[k]
                            == before[i];
                    assert(places[k] < places[n]);
                }
            }
            assert forall|i: int| 0 <= i < all.len() implies 0 <= #[trigger] all[i] < hay.len()
                && hay[all[i]] == dense(pattern)[i] by {
                if i < before.len() {
                    assert(all[i] == before[i]);
                } else {
                    assert(all[i] == places[n]);
                }
            }
            assert(placed(dense(pattern), hay, all));
            all
        }
    }
}

/// A pattern fits a value exactly where each of its characters, white space left out, can be found
/// in the value, in the same order and each at a place of its own, with both in lower case.
pub proof fn law_fitting_finds_every_character(pattern: Seq<char>, value: Seq<char>)
    ensures
        fuzzy(pattern, value) <==> exists|places: Seq<int>|
            scattered(text::lowercase(pattern), text::lowercase(value), places),
{
    let low = text::lowercase(pattern);
    let hay = text::lowercase(value);
    law_subsequence_has_places(dense(low), hay);
    if fuzzy(pattern, value) {
        let found = choose|places: Seq<int>| placed(dense(low), hay, places);
        let places = lemma_scatter(low, hay, found);
        assert(scattered(low, hay, places));
    }
    if exists|places: Seq<int>| scattered(low, hay, places) {
        let places = choose|places: Seq<int>| scattered(low, hay, places);
        let found = lemma_gather(low, hay, places);
        assert(placed(dense(low), hay, found));
    }
}

/// Each model is kept or left out by itself: it is kept where the pattern fits its provider and
/// its id with a space between them. The models that are kept stay in order.
pub proof fn law_each_model_is_held_against_the_pattern(
    before: Seq<ModelView>,
    m: ModelView,
    after: Seq<ModelView>,
    pattern: Seq<char>,
)
    ensures
        fuzzy(pattern, m.provider + " "@ + m.id) ==> fitting_models(
            before + seq![m] + after,
            pattern,
        ) == fitting_models(before, pattern) + seq![m] + fitting_models(after, pattern),
        !fuzzy(pattern, m.provider + " "@ + m.id) ==> fitting_models(
            before + seq![m] + after,
            pattern,
        ) == fitting_models(before, pattern) + fitting_models(after, pattern),
        fitting_models(Seq::empty(), pattern).len() == 0,
{
    let keep = |m: ModelView| fuzzy(pattern, search_text(m));
    Seq::filter_distributes_over_add(before + seq![m], after, keep);
    Seq::filter_distributes_over_add(before, seq![m], keep);
    reveal(Seq::filter);
    let one = seq![m];
    assert(one.drop_last() =~= Seq::<ModelView>::empty());
    assert(one.last() == m);
    let none = Seq::<ModelView>::empty();
    assert(none.filter(keep) =~= none);
    if fuzzy(pattern, m.provider + " "@ + m.id) {
        assert(one.filter(keep) =~= one);
    } else {
        assert(one.filter(keep) =~= none);
        assert(before.filter(keep) + none =~= before.filter(keep));
    }
}

/// A list that a pattern narrows is the list of just the models that fit it. Where none fits, that
/// is said, and where there is no model at all, this.
pub proof fn law_pattern_narrows_the_list(models: Seq<ModelView>, pattern: Seq<char>)
    ensures
        models.len() == 0 ==> listing(models, Some(pattern)) == listing(models, None),
        models.len() == 0 ==> listing(models, None)
            == "No models available. Set API keys in environment variables.\n"@,
        models.len() > 0 && (forall|i: int|
            0 <= i < models.len() ==> !fuzzy(
                pattern,
                (#[trigger] models[i]).provider + " "@ + models[i].id,
            )) ==> listing(models, Some(pattern)) == "No models matching \""@ + pattern + "\"\n"@,
        (exists|i: int|
            0 <= i < models.len() && fuzzy(
                pattern,
                (#[trigger] models[i]).provider + " "@ + models[i].id,
            )) ==> listing(models, Some(pattern)) == listing(
            models.filter(|m: ModelView| fuzzy(pattern, m.provider + " "@ + m.id)),
            None,
        ),
{
    let keep = |m: ModelView| fuzzy(pattern, search_text(m));
    let told = |m: ModelView| fuzzy(pattern, m.provider + " "@ + m.id);
    assert(keep =~= told);
    let fitting = models.filter(keep);
    if exists|i: int|
        0 <= i < models.len() && fuzzy(
            pattern,
            (#[trigger] models[i]).provider + " "@ + models[i].id,
        ) {
        let i = choose|i: int|
            0 <= i < models.len() && fuzzy(
                pattern,
                (#[trigger] models[i]).provider + " "@ + models[i].id,
            );
        assert(keep(models[i]));
        models.lemma_filter_contains(keep, i);
        assert(fitting.len() > 0);
    } else if fitting.len() > 0 {
        models.lemma_filter_pred(keep, 0);
        models.lemma_filter_contains_rev(keep, fitting[0]);
        let i = choose|i: int| 0 <= i < models.len() && models[i] == fitting[0];
        assert(fuzzy(pattern, models[i].provider + " "@ + models[i].id));
    }
}

/// Whether `places` lists every index of `models` once, by provider, and by id for one provider,
/// with models of the same name in the order in which they stand.
pub open spec fn ranked_by_name(models: Seq<ModelView>, places: Seq<int>) -> bool {
    &&& places.len() == models.len()
    &&& forall|p: int| 0 <= p < places.len() ==> 0 <= #[trigger] places[p] < models.len()
    &&& forall|i: int| 0 <= i < models.len() ==> #[trigger] places.contains(i)
    &&& forall|p: int, q: int|
        0 <= p < q < places.len() ==> {
            let a = models[#[trigger] places[p]];
            let b = models[#[trigger] places[q]];
            ||| order::text_less(a.provider, b.provider)
            ||| a.provider == b.provider && order::text_less(a.id, b.id)
            ||| a.provider == b.provider && a.id == b.id && places[p] < places[q]
        }
}

/// Without a pattern the list is a table with one row for every model, no model left out and none
/// shown twice, in the order of providers and ids.
pub proof fn law_list_shows_every_model(models: Seq<ModelView>)
    requires
        0 < models.len() <= usize::MAX,
    ensures
        exists|places: Seq<int>| #[trigger]
            ranked_by_name(models, places) && listing(models, None) == table_text(
                Seq::new(models.len(), |p: int| model_row(models[places[p]])),
            ),
{
    let keys = Seq::new(models.len(), |i: int| model_key(models[i]));
    let by_name = order::stable_order(keys);
    order::law_stable_order_exists(keys);
    let places = Seq::new(models.len(), |p: int| by_name[p] as int);
    assert forall|i: int| 0 <= i < models.len() implies #[trigger] places.contains(i) by {
        assert(by_name.contains(i as usize));
        let p = choose|p: int| 0 <= p < by_name.len() && by_name[p] == i as usize;
        assert(places[p] == i);
    }
    assert forall|p: int, q: int| 0 <= p < q < places.len() implies {
        let a = models[#[trigger] places[p]];
        let b = models[#[trigger] places[q]];
        ||| order::text_less(a.provider, b.provider)
        ||| a.provider == b.provider && order::text_less(a.id, b.id)
        ||| a.provider == b.provider && a.id == b.id && places[p] < places[q]
    } by {
        assert(order::item_leq(keys, by_name[p], by_name[q]));
        assert(by_name[p] != by_name[q]);
    }
    assert(ranked_by_name(models, places));
    assert(model_rows(sorted_models(models)) =~= Seq::new(
        models.len(),
        |p: int| model_row(models[places[p]]),
    ));
}

/// A row holds the provider, the id, the two numbers of tokens, and whether the model can think
/// and takes images.
pub proof fn law_row_describes_its_model(m: ModelView)
    ensures
        model_row(m).len() == 6,
        model_row(m)[0] == m.provider,
        model_row(m)[1] == m.id,
        model_row(m)[2] == token_count(m.context_window),
        model_row(m)[3] == token_count(m.max_tokens),
        m.reasoning ==> model_row(m)[4] == "yes"@,
        !m.reasoning ==> model_row(m)[4] == "no"@,
        (exists|i: int| 0 <= i < m.input.len() && #[trigger] m.input[i] == InputType::Image)
            ==> model_row(m)[5] == "yes"@,
        (forall|i: int| 0 <= i < m.input.len() ==> #[trigger] m.input[i] == InputType::Text)
            ==> model_row(m)[5] == "no"@,
{
}

/// A cell is shown with spaces behind it, as many as it takes to fill the column.
pub proof fn law_cells_are_filled_up(cell: Seq<char>, width: nat)
    ensures
        padded(cell, width).len() == if cell.len() < width {
            width
        } else {
            cell.len()
        },
        padded(cell, width).take(cell.len() as int) == cell,
        forall|i: int|
            cell.len() <= i < padded(cell, width).len() ==> #[trigger] padded(cell, width)[i]
                == ' ',
{
    assert(padded(cell, width).take(cell.len() as int) =~= cell);
}

/// A line of the table: six cells, with two spaces between them.
pub open spec fn table_line(row: Seq<Seq<char>>, widths: Seq<nat>) -> Seq<char> {
    padded(row[0], widths[0]) + "  "@ + padded(row[1], widths[1]) + "  "@ + padded(
        row[2],
        widths[2],
    ) + "  "@ + padded(row[3], widths[3]) + "  "@ + padded(row[4], widths[4]) + "  "@ + padded(
        row[5],
        widths[5],
    ) + "\n"@
}

/// Whether `width` is the length in bytes of the longest cell of a column.
pub open spec fn widest(rows: Seq<Seq<Seq<char>>>, c: int, width: nat) -> bool {
    &&& forall|k: int|
        0 <= k < rows.len() ==> vstd::utf8::encode_utf8(#[trigger] rows[k][c]).len() <= width
    &&& exists|k: int|
        0 <= k < rows.len() && vstd::utf8::encode_utf8(#[trigger] rows[k][c]).len() == width
}

/// Whether each of six columns is as wide as the longest of its cells, counted in bytes.
pub open spec fn widths_of(rows: Seq<Seq<Seq<char>>>, widths: Seq<nat>) -> bool {
    &&& widths.len() == 6
    &&& forall|c: int| 0 <= c < 6 ==> widest(rows, c, #[trigger] widths[c])
}

proof fn lemma_column_width(rows: Seq<Seq<Seq<char>>>, c: int)
    requires
        rows.len() > 0,
    ensures
        widest(rows, c, column_width(rows, c)),
    decreases rows.len(),
{
    let n = rows.len() - 1;
    let front = rows.drop_last();
    assert(rows.last() == rows[n]);
    if n > 0 {
        lemma_column_width(front, c);
        let k = choose|k: int|
            0 <= k < front.len() && vstd::utf8::encode_utf8(#[trigger] front[k][c]).len()
                == column_width(front, c);
        assert(rows[k][c] == front[k][c]);
        assert forall|k: int| 0 <= k < rows.len() implies vstd::utf8::encode_utf8(
            #[trigger] rows[k][c],
        ).len() <= column_width(rows, c) by {
            if k < n {
                assert(rows[k][c] == front[k][c]);
            }
        }
    } else {
        assert(column_width(front, c) == 0);
        assert(vstd::utf8::encode_utf8(rows[n][c]).len() == column_width(rows, c));
    }
}

proof fn lemma_rows_text(rows: Seq<Seq<Seq<char>>>, n: nat, widths: Seq<nat>)
    requires
        n <= rows.len(),
        widths.len() == 6,
        forall|c: int| 0 <= c < 6 ==> #[trigger] widths[c] == column_width(rows, c),
    ensures
        rows_text(rows, n) == Seq::new(n, |k: int| table_line(rows[k], widths)).flatten(),
    decreases n,
{
    let shown = Seq::new(n, |k: int| table_line(rows[k], widths));
    if n > 0 {
        let before = Seq::new((n - 1) as nat, |k: int| table_line(rows[k], widths));
        let row = rows[n - 1];
        lemma_rows_text(rows, (n - 1) as nat, widths);
        assert(shown =~= before.push(table_line(row, widths)));
        before.lemma_flatten_push(table_line(row, widths));
        lemma_row_text(row, rows, widths);
        assert(rows_text(rows, (n - 1) as nat) + (row_text(row, rows, 6) + "\n"@)
            =~= rows_text(rows, (n - 1) as nat) + row_text(row, rows, 6) + "\n"@);
    } else {
        assert(shown.flatten() =~= Seq::<char>::empty());
    }
}

proof fn lemma_row_text(row: Seq<Seq<char>>, rows: Seq<Seq<Seq<char>>>, widths: Seq<nat>)
    requires
        widths.len() == 6,
        forall|c: int| 0 <= c < 6 ==> #[trigger] widths[c] == column_width(rows, c),
    ensures
        row_text(row, rows, 6) + "\n"@ == table_line(row, widths),
{
    assert(widths[0] == column_width(rows, 0));
    assert(widths[1] == column_width(rows, 1));
    assert(widths[2] == column_width(rows, 2));
    assert(widths[3] == column_width(rows, 3));
    assert(widths[4] == column_width(rows, 4));
    assert(widths[5] == column_width(rows, 5));
    assert(row_text(row, rows, 1) == padded(row[0], widths[0]));
    assert(row_text(row, rows, 2) == row_text(row, rows, 1) + "  "@ + padded(row[1], widths[1]));
    assert(row_text(row, rows, 3) == row_text(row, rows, 2) + "  "@ + padded(row[2], widths[2]));
    assert(row_text(row, rows, 4) == row_text(row, rows, 3) + "  "@ + padded(row[3], widths[3]));
    assert(row_text(row, rows, 5) == row_text(row, rows, 4) + "  "@ + padded(row[4], widths[4]));
    assert(row_text(row, rows, 6) == row_text(row, rows, 5) + "  "@ + padded(row[5], widths[5]));
}

/// The table has one line for its header and one for each row, in order, and nothing else. All its
/// columns are as wide as their longest cell.
pub proof fn law_table_has_a_line_per_row(header: Seq<Seq<char>>, rows: Seq<Seq<Seq<char>>>)
    requires
        header == seq!["provider"@, "model"@, "context"@, "max-out"@, "thinking"@, "images"@],
    ensures
        exists|widths: Seq<nat>| #[trigger]
            widths_of(rows.insert(0, header), widths) && table_text(rows) == table_line(
                header,
                widths,
            ) + Seq::new(rows.len(), |k: int| table_line(rows[k], widths)).flatten(),
{
    let all = rows.insert(0, header);
    assert(all =~= seq![header] + rows);
    let widths = Seq::new(6, |c: int| column_width(all, c));
    assert forall|c: int| 0 <= c < 6 implies widest(all, c, #[trigger] widths[c]) by {
        lemma_column_width(all, c);
    }
    assert(widths_of(all, widths));
    lemma_rows_text(all, all.len(), widths);
    let lines = Seq::new(all.len(), |k: int| table_line(all[k], widths));
    let behind = Seq::new(rows.len(), |k: int| table_line(rows[k], widths));
    assert(lines.drop_first() =~= behind);
    assert(lines.first() == table_line(header, widths));
    assert(lines.flatten() == lines.first() + lines.drop_first().flatten());
}

/// A number of tokens below one thousand is shown as it is.
pub proof fn law_small_counts_are_shown_as_they_are(count: u32)
    requires
        count < 1_000,
    ensures
        token_count(count) == decimal::numeral(count as nat),
{
}

/// A number of tokens that is a whole number of millions is shown without decimal places.
pub proof fn law_whole_millions_are_shown_whole(k: nat)
    requires
        1 <= k <= 4_294,
    ensures
        token_count((1_000_000 * k) as u32) == decimal::numeral(k) + "M"@,
{
}

/// Any other number of tokens is shown with one decimal place, in millions from one million on and
/// in thousands below, as near to the number as one place allows. Where the number lies right
/// between two tenths and a binary fraction holds it, the even tenth is shown.
pub proof fn law_other_counts_are_shown_in_tenths(count: u32)
    requires
        count >= 1_000,
    ensures
        count < 1_000_000 && count % 1_000 != 0 ==> exists|t: nat|
            token_count(count) == decimal::numeral(t / 10) + "."@ + #[trigger] decimal::numeral(
                t % 10,
            ) + "K"@ && 2 * (t * 1_000 - 10 * count) <= 1_000 && 2 * (10 * count - t * 1_000)
                <= 1_000 && (count % 1_000 == 250 || count % 1_000 == 750 ==> t % 2 == 0),
        count >= 1_000_000 && count % 1_000_000 != 0 ==> exists|t: nat|
            token_count(count) == decimal::numeral(t / 10) + "."@ + #[trigger] decimal::numeral(
                t % 10,
            ) + "M"@ && 2 * (t * 1_000_000 - 10 * count) <= 1_000_000 && 2 * (10 * count - t
                * 1_000_000) <= 1_000_000 && (count % 1_000_000 == 250_000 || count % 1_000_000
                == 750_000 ==> t % 2 == 0),
{
    let c = count as nat;
    let unit: nat = if count >= 1_000_000 {
        1_000_000
    } else {
        1_000
    };
    law_shown_tenths_are_close(c, unit);
    let t = tenths(c, unit);
    assert(t >= 0);
    if c % unit == unit / 4 || c % unit == 3 * (unit / 4) {
        lemma_quarters(c, unit);
    }
    let shown = t as nat;
    assert(decimal::numeral((t % 10) as nat) == decimal::numeral(shown % 10));
}

proof fn lemma_quarters(count: nat, unit: nat)
    requires
        unit == 1_000 || unit == 1_000_000,
        unit <= count <= u32::MAX,
        count % unit == unit / 4 || count % unit == 3 * (unit / 4),
    ensures
        tenths(count, unit) % 2 == 0,
{
    let places = binary_places(count, unit);
    let d = doublings(count, unit);
    lemma_doublings(count, unit);
    vstd::arithmetic::power2::lemma2_to64();
    vstd::arithmetic::power2::lemma2_to64_rest();
    let p = vstd::arithmetic::power2::pow2(d);
    assert(d <= 22) by {
        if d > 22 {
            if d > 23 {
                vstd::arithmetic::power2::lemma_pow2_strictly_increases(23, d);
            }
            assert(p * unit >= 0x80_0000 * 1000) by (nonlinear_arith)
                requires
                    p >= 0x80_0000,
                    unit >= 1000,
            ;
        }
    }
    let s = vstd::arithmetic::power2::pow2(places) as int;
    let s4 = vstd::arithmetic::power2::pow2((places - 2) as nat) as int;
    vstd::arithmetic::power2::lemma_pow2_unfold(places);
    vstd::arithmetic::power2::lemma_pow2_unfold((places - 1) as nat);
    vstd::arithmetic::power2::lemma_pow2_pos((places - 2) as nat);
    assert(s == 4 * s4);
    let u = unit as int;
    let quarter = u / 4;
    let whole = count as int / u;
    let part: int = if count % unit == unit / 4 {
        1
    } else {
        3
    };
    // The number is `4 * whole + part` quarters of the unit.
    let fours = 4 * whole + part;
    assert(u == 4 * quarter);
    assert(count == fours * quarter) by (nonlinear_arith)
        requires
            count == u * whole + part * quarter,
            u == 4 * quarter,
            fours == 4 * whole + part,
    ;
    let n = count * s;
    let q = fours * s4;
    assert(n == q * u) by (nonlinear_arith)
        requires
            n == count * s,
            count == fours * quarter,
            s == 4 * s4,
            u == 4 * quarter,
            q == fours * s4,
    ;
    assert(n / u == q && n % u == 0) by (nonlinear_arith)
        requires
            n == q * u,
            u > 0,
    ;
    assert(nearest(n, u) == q);
    // Ten times the quotient is `10 * fours` quarters of the scale.
    let m = 10 * q;
    let half = 2 * s4;
    let whole_tenths: int = if part == 1 {
        10 * whole + 2
    } else {
        10 * whole + 7
    };
    assert(m == whole_tenths * s + half) by (nonlinear_arith)
        requires
            m == 10 * q,
            q == fours * s4,
            fours == 4 * whole + part,
            s == 4 * s4,
            half == 2 * s4,
            part == 1 && whole_tenths == 10 * whole + 2 || part == 3 && whole_tenths == 10 * whole
                + 7,
    ;
    assert(m / s == whole_tenths && m % s == half) by (nonlinear_arith)
        requires
            m == whole_tenths * s + half,
            0 <= half < s,
    ;
}

/// What an entry says is what its model holds, each field of it.
pub proof fn law_entries_say_what_their_model_holds(entries: Seq<ModelEntry>, i: int)
    requires
        0 <= i < entries.len(),
    ensures
        model_views(entries).len() == entries.len(),
        model_views(entries)[i].provider == entries[i].model.provider@,
        model_views(entries)[i].id == entries[i].model.id@,
        model_views(entries)[i].context_window == entries[i].model.context_window,
        model_views(entries)[i].max_tokens == entries[i].model.max_tokens,
        model_views(entries)[i].reasoning == entries[i].model.reasoning,
        model_views(entries)[i].input == entries[i].model.input@,
{
}

/// What rows of cells say is what the cells hold, cell by cell.
pub proof fn law_rows_say_what_their_cells_hold(rows: Seq<[String; 6]>, i: int, c: int)
    requires
        0 <= i < rows.len(),
        0 <= c < 6,
    ensures
        cell_rows(rows).len() == rows.len(),
        cell_rows(rows)[i].len() == 6,
        cell_rows(rows)[i][c] == rows[i]@[c]@,
{
}

proof fn lemma_doublings_are_the_most(count: nat, unit: nat)
    requires
        0 < unit <= count,
    ensures
        count < vstd::arithmetic::power2::pow2(doublings(count, unit) + 1) * unit,
    decreases count - unit,
{
    vstd::arithmetic::power2::lemma2_to64();
    if count >= 2 * unit {
        lemma_doublings_are_the_most(count, 2 * unit);
        let d = doublings(count, 2 * unit);
        let p = vstd::arithmetic::power2::pow2(d + 1);
        vstd::arithmetic::power2::lemma_pow2_unfold(d + 2);
        let twice = vstd::arithmetic::power2::pow2(d + 2);
        assert(twice * unit == p * (2 * unit)) by (nonlinear_arith)
            requires
                twice == 2 * p,
        ;
    } else {
        assert(doublings(count, unit) == 0);
    }
}

/// Whether `m` binary fractions of `scale` are the double that is nearest to `count / unit`: `m` has
/// 53 binary digits, and is off by half a fraction at most.
pub open spec fn nearest_double(count: nat, unit: nat, m: int, scale: int) -> bool {
    &&& exists|k: nat| scale == #[trigger] vstd::arithmetic::power2::pow2(k)
    &&& vstd::arithmetic::power2::pow2(52) <= m <= vstd::arithmetic::power2::pow2(53)
    &&& 2 * (m * unit - count * scale) <= unit
    &&& 2 * (count * scale - m * unit) <= unit
}

/// The tenths that are shown are those nearest to the double that is nearest to the quotient. Right
/// between two tenths, the even one is shown.
pub proof fn law_tenths_are_nearest_to_the_double(count: nat, unit: nat)
    requires
        unit == 1_000 || unit == 1_000_000,
        unit <= count <= u32::MAX,
    ensures
        exists|m: int, scale: int| #[trigger]
            nearest_double(count, unit, m, scale) && 2 * (tenths(count, unit) * scale - 10 * m)
                <= scale && 2 * (10 * m - tenths(count, unit) * scale) <= scale && ((2 * (tenths(
                count,
                unit,
            ) * scale - 10 * m) == scale || 2 * (10 * m - tenths(count, unit) * scale) == scale)
                ==> tenths(count, unit) % 2 == 0),
{
    let d = doublings(count, unit);
    let places = binary_places(count, unit);
    let s = vstd::arithmetic::power2::pow2(places) as int;
    let u = unit as int;
    let c = count as int;
    lemma_doublings(count, unit);
    lemma_doublings_are_the_most(count, unit);
    vstd::arithmetic::power2::lemma2_to64();
    vstd::arithmetic::power2::lemma2_to64_rest();
    let p = vstd::arithmetic::power2::pow2(d) as int;
    let p1 = vstd::arithmetic::power2::pow2(d + 1) as int;
    assert(d <= 22) by {
        if d > 22 {
            if d > 23 {
                vstd::arithmetic::power2::lemma_pow2_strictly_increases(23, d);
            }
            assert(p * u >= 0x80_0000 * 1000) by (nonlinear_arith)
                requires
                    p >= 0x80_0000,
                    u >= 1000,
            ;
        }
    }
    vstd::arithmetic::power2::lemma_pow2_adds(d, places);
    vstd::arithmetic::power2::lemma_pow2_adds(d + 1, places);
    vstd::arithmetic::power2::lemma_pow2_pos(places);
    let low = vstd::arithmetic::power2::pow2(52) as int;
    let high = vstd::arithmetic::power2::pow2(53) as int;
    assert(p * s == low);
    assert(p1 * s == high);
    let n = c * s;
    assert(low * u <= n) by (nonlinear_arith)
        requires
            p * s == low,
            p * u <= c,
            n == c * s,
            s > 0,
    ;
    assert(n < high * u) by (nonlinear_arith)
        requires
            p1 * s == high,
            c < p1 * u,
            n == c * s,
            s > 0,
    ;
    let m = nearest(n, u);
    assert(low <= n / u && n / u < high) by (nonlinear_arith)
        requires
            low * u <= n,
            n < high * u,
            u > 0,
    ;
    lemma_nearest(n, u);
    assert(nearest_double(count, unit, m, s));
    let t = nearest(10 * m, s);
    lemma_nearest(10 * m, s);
    if 2 * (t * s - 10 * m) == s || 2 * (10 * m - t * s) == s {
        lemma_ties_are_even(10 * m, s);
    }
    assert(tenths(count, unit) == t);
}

proof fn lemma_ties_are_even(n: int, d: int)
    requires
        d > 0,
        2 * (nearest(n, d) * d - n) == d || 2 * (n - nearest(n, d) * d) == d,
    ensures
        nearest(n, d) % 2 == 0,
{
    let q = n / d;
    let r = n % d;
    assert(n == q * d + r && 0 <= r < d) by (nonlinear_arith)
        requires
            d > 0,
            q == n / d,
            r == n % d,
    ;
    assert((q + 1) * d == q * d + d) by (nonlinear_arith);
}

} // verus!
