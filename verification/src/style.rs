//! CSS-like styling: selector specificity, component scoping and a
//! line-oriented stylesheet parser.
use vstd::prelude::*;
use crate::text::{
    chars_of, is_ws, trim_start, trim_end, count_matches, count_matches_in, find, lemma_find_correct, split, split_char,
    starts_with, string_from, views, contains, trim, trim_end_char, lines, lines_of, trim_vec,
    trim_end_char_vec, starts_with_at, find_in, lemma_lines_len, lemma_trim_len, lemma_split_len,
    eq_chars, parse_u16, push_str, u16_text_value,
};

verus! {

// ---------------------------------------------------------------------
// Specificity
// ---------------------------------------------------------------------

/// CSS selector specificity (a, b, c).
#[derive(Debug, Clone, Copy, PartialEq, Eq, PartialOrd, Ord, Hash, Structural)]
pub struct Specificity(pub u32, pub u32, pub u32);

impl Specificity {
    /// The specificity as a triple of integers.
    pub open spec fn triple(self) -> (int, int, int) {
        (self.0 as int, self.1 as int, self.2 as int)
    }
}

/// ID selectors (`#`) in one space-separated part of a selector.
pub open spec fn part_ids(p: Seq<char>) -> int {
    count_matches(p, seq!['#']) as int
}

/// Class selectors, attributes and pseudo-classes in one part: every `.`,
/// `[` and `:` counts, and each `::` (a pseudo-element) is taken back.
pub open spec fn part_classes(p: Seq<char>) -> int {
    count_matches(p, seq!['.']) + count_matches(p, seq!['[']) + count_matches(p, seq![':'])
        - count_matches(p, seq![':', ':'])
}

/// Element selectors and pseudo-elements in one part: one for a part that
/// does not start with `.`, `#` or `[`, plus each `::`.
pub open spec fn part_elements(p: Seq<char>) -> int {
    (if starts_with(p, seq!['.']) || starts_with(p, seq!['#']) || starts_with(p, seq!['[']) {
        0int
    } else {
        1int
    }) + count_matches(p, seq![':', ':'])
}

/// Specificity summed over the parts of a selector.
pub open spec fn parts_specificity(parts: Seq<Seq<char>>) -> (int, int, int)
    decreases parts.len(),
{
    if parts.len() == 0 {
        (0, 0, 0)
    } else {
        let r = parts_specificity(parts.drop_last());
        let p = parts.last();
        (r.0 + part_ids(p), r.1 + part_classes(p), r.2 + part_elements(p))
    }
}

/// Specificity of a selector: the sum over its space-separated parts.
pub open spec fn selector_specificity(sel: Seq<char>) -> (int, int, int) {
    parts_specificity(split(sel, ' '))
}

/// Lexicographic order on specificity triples.
pub open spec fn triple_lt(x: (int, int, int), y: (int, int, int)) -> bool {
    x.0 < y.0 || (x.0 == y.0 && (x.1 < y.1 || (x.1 == y.1 && x.2 < y.2)))
}

/// The larger of two triples in lexicographic order.
pub open spec fn triple_max(x: (int, int, int), y: (int, int, int)) -> (int, int, int) {
    if triple_lt(x, y) {
        y
    } else {
        x
    }
}

/// Total length of a list of pieces, each counted with one separator.
pub open spec fn weight(parts: Seq<Seq<char>>) -> int
    decreases parts.len(),
{
    if parts.len() == 0 {
        0
    } else {
        parts[0].len() + 1 + weight(parts.drop_first())
    }
}

/// Occurrences of a pattern never outnumber the characters.
pub proof fn lemma_count_le_len(s: Seq<char>, p: Seq<char>)
    ensures
        count_matches(s, p) <= s.len(),
    decreases s.len(),
{
    if p.len() == 0 || s.len() == 0 {
    } else if starts_with(s, p) {
        lemma_count_le_len(s.skip(p.len() as int), p);
    } else {
        lemma_count_le_len(s.drop_first(), p);
    }
}

/// Counting a single character steps one position at a time.
pub proof fn lemma_count_char_step(s: Seq<char>, x: char)
    requires
        s.len() > 0,
    ensures
        count_matches(s, seq![x]) == (if s[0] == x { 1int } else { 0int }) + count_matches(
            s.drop_first(),
            seq![x],
        ),
{
    assert(s.skip(1) =~= s.drop_first());
    if s[0] == x {
        assert(s.take(1) =~= seq![x]);
    } else {
        assert(s.take(1)[0] != seq![x][0]);
    }
}

/// Dots, brackets and colons are distinct characters, so together they
/// never outnumber the characters.
pub proof fn lemma_class_chars_le_len(s: Seq<char>)
    ensures
        count_matches(s, seq!['.']) + count_matches(s, seq!['[']) + count_matches(s, seq![':'])
            <= s.len(),
    decreases s.len(),
{
    if s.len() > 0 {
        lemma_count_char_step(s, '.');
        lemma_count_char_step(s, '[');
        lemma_count_char_step(s, ':');
        lemma_class_chars_le_len(s.drop_first());
    }
}

/// Every `::` holds a `:`, so double colons never outnumber colons.
pub proof fn lemma_double_colon_le_colon(s: Seq<char>)
    ensures
        count_matches(s, seq![':', ':']) <= count_matches(s, seq![':']),
    decreases s.len(),
{
    let dc = seq![':', ':'];
    if s.len() == 0 {
    } else {
        lemma_count_char_step(s, ':');
        if starts_with(s, dc) {
            assert(s[0] == ':' && s[1] == ':') by {
                assert(s.take(2)[0] == dc[0]);
                assert(s.take(2)[1] == dc[1]);
            }
            let t = s.drop_first();
            lemma_count_char_step(t, ':');
            assert(t.drop_first() =~= s.skip(2));
            lemma_double_colon_le_colon(s.skip(2));
        } else {
            lemma_double_colon_le_colon(s.drop_first());
        }
    }
}

/// The pieces of a split, each with its separator, add up to the whole.
pub proof fn lemma_split_weight(s: Seq<char>, c: char)
    ensures
        weight(split(s, c)) == s.len() + 1,
    decreases s.len(),
{
    lemma_find_correct(s, seq![c]);
    match find(s, seq![c]) {
        Some(k) => {
            let rest = s.skip((k + 1) as int);
            lemma_split_weight(rest, c);
            let parts = split(s, c);
            assert(parts.drop_first() =~= split(rest, c));
            assert(parts[0] =~= s.take(k as int));
            assert(weight(parts) == parts[0].len() + 1 + weight(parts.drop_first()));
        },
        None => {
            let parts = split(s, c);
            assert(parts.drop_first() =~= Seq::<Seq<char>>::empty());
            assert(weight(parts) == parts[0].len() + 1 + weight(parts.drop_first()));
        },
    }
}

/// Count of a single character, as a `usize`.
fn count_char(s: &[char], x: char) -> (r: usize)
    ensures
        r == count_matches(s@, seq![x]),
{
    let pat = vec![x];
    assert(pat@ =~= seq![x]);
    count_matches_in(s, &pat)
}

/// Whether a non-empty slice starts with `x`.
fn starts_with_char(s: &[char], x: char) -> (r: bool)
    ensures
        r == starts_with(s@, seq![x]),
{
    if s.len() == 0 {
        false
    } else {
        proof {
            if s@[0] == x {
                assert(s@.take(1) =~= seq![x]);
            } else {
                assert(s@.take(1)[0] != seq![x][0]);
            }
        }
        s[0] == x
    }
}

/// Specificity of a selector given as characters.
fn specificity_of(sel: &[char]) -> (r: Specificity)
    requires
        sel.len() < u32::MAX,
    ensures
        r.triple() == selector_specificity(sel@),
{
    let parts = split_char(sel, ' ');
    let ghost ps = split(sel@, ' ');
    proof {
        lemma_split_weight(sel@, ' ');
        assert(ps.skip(0) =~= ps);
        assert(ps.take(0) =~= Seq::<Seq<char>>::empty());
    }
    let mut a: u32 = 0;
    let mut b: u32 = 0;
    let mut c: u32 = 0;
    let ghost mut used: int = 0;
    let mut i: usize = 0;
    let dc = vec![':', ':'];
    assert(dc@ =~= seq![':', ':']);
    while i < parts.len()
        invariant
            sel.len() < u32::MAX,
            views(parts@) == ps,
            dc@ == seq![':', ':'],
            i <= parts.len(),
            used + weight(ps.skip(i as int)) == sel.len() + 1,
            0 <= used,
            a <= used,
            b <= used,
            c <= used,
            (a as int, b as int, c as int) == parts_specificity(ps.take(i as int)),
        decreases parts.len() - i,
    {
        let part = &parts[i];
        let ghost p = ps[i as int];
        assert(part@ == p);
        proof {
            assert(ps.skip(i as int).drop_first() =~= ps.skip(i + 1));
            assert(weight(ps.skip(i + 1)) >= 0) by {
                lemma_weight_nonneg(ps.skip(i + 1));
            }
            lemma_count_le_len(p, seq!['#']);
            lemma_count_le_len(p, seq![':', ':']);
            lemma_class_chars_le_len(p);
            lemma_double_colon_le_colon(p);
            assert(ps.take(i + 1).drop_last() =~= ps.take(i as int));
        }
        let ids = count_char(part, '#');
        let dots = count_char(part, '.');
        let brackets = count_char(part, '[');
        let colons = count_char(part, ':');
        let doubles = count_matches_in(part, &dc);
        a = a + ids as u32;
        b = b + dots as u32;
        b = b + brackets as u32;
        b = b + colons as u32;
        b = b - doubles as u32;
        if !starts_with_char(part, '.') && !starts_with_char(part, '#') && !starts_with_char(
            part,
            '[',
        ) {
            c = c + 1;
        }
        c = c + doubles as u32;
        proof {
            used = used + p.len() + 1;
        }
        i = i + 1;
    }
    assert(ps.take(parts.len() as int) =~= ps);
    Specificity(a, b, c)
}

/// Weights are never negative.
pub proof fn lemma_weight_nonneg(parts: Seq<Seq<char>>)
    ensures
        weight(parts) >= 0,
    decreases parts.len(),
{
    if parts.len() > 0 {
        lemma_weight_nonneg(parts.drop_first());
    }
}

// ---------------------------------------------------------------------
// Rules and stylesheets
// ---------------------------------------------------------------------

/// A CSS property: a name and a value.
#[derive(Debug, Clone, PartialEq)]
pub struct CssProperty {
    /// Name of the property.
    pub name: String,
    /// Value of the property.
    pub value: String,
}

/// A CSS selector with the properties declared for it.
#[derive(Debug, Clone, PartialEq)]
pub struct CssSelector {
    /// Selector text.
    pub selector: String,
    /// Properties for this selector.
    pub properties: Vec<CssProperty>,
}

/// A CSS rule: its selectors, scoping, specificity and source order.
#[derive(Debug, Clone)]
pub struct StyleRule {
    /// The selectors of this rule.
    pub selectors: Vec<CssSelector>,
    /// Whether this rule is scoped to a component.
    pub scoped: bool,
    /// The specificity of the most specific selector.
    pub specificity: Specificity,
    /// Source order, for breaking specificity ties.
    pub source_order: usize,
}

/// A stylesheet: a list of rules.
#[derive(Debug, Clone, Default)]
pub struct Stylesheet {
    /// Rules in this stylesheet.
    pub rules: Vec<StyleRule>,
}

/// Errors of styling operations.
#[derive(Debug, Clone, PartialEq)]
pub enum StyleError {
    /// The CSS text could not be parsed.
    ParseError(String),
}

/// A property as a (name, value) pair of character sequences.
pub type PropView = (Seq<char>, Seq<char>);

/// A selector as its text and its properties.
pub type SelectorView = (Seq<char>, Seq<PropView>);

/// The mathematical content of a rule.
pub struct RuleView {
    pub selectors: Seq<SelectorView>,
    pub scoped: bool,
    pub specificity: (int, int, int),
    pub source_order: nat,
}

impl View for CssProperty {
    type V = PropView;

    open spec fn view(&self) -> PropView {
        (self.name@, self.value@)
    }
}

/// The views of a list of properties.
pub open spec fn props_view(ps: Seq<CssProperty>) -> Seq<PropView> {
    ps.map_values(|p: CssProperty| p@)
}

impl View for CssSelector {
    type V = SelectorView;

    open spec fn view(&self) -> SelectorView {
        (self.selector@, props_view(self.properties@))
    }
}

/// The views of a list of selectors.
pub open spec fn selectors_view(ss: Seq<CssSelector>) -> Seq<SelectorView> {
    ss.map_values(|s: CssSelector| s@)
}

impl View for StyleRule {
    type V = RuleView;

    open spec fn view(&self) -> RuleView {
        RuleView {
            selectors: selectors_view(self.selectors@),
            scoped: self.scoped,
            specificity: self.specificity.triple(),
            source_order: self.source_order as nat,
        }
    }
}

/// The views of a list of rules.
pub open spec fn rules_view(rs: Seq<StyleRule>) -> Seq<RuleView> {
    rs.map_values(|r: StyleRule| r@)
}

impl View for Stylesheet {
    type V = Seq<RuleView>;

    open spec fn view(&self) -> Seq<RuleView> {
        rules_view(self.rules@)
    }
}

/// The texts of a list of selectors.
pub open spec fn selector_texts(ss: Seq<SelectorView>) -> Seq<Seq<char>> {
    ss.map_values(|s: SelectorView| s.0)
}

/// The largest specificity among the selectors, or (0, 0, 0) when there are none.
pub open spec fn max_specificity(sels: Seq<Seq<char>>) -> (int, int, int)
    decreases sels.len(),
{
    if sels.len() == 0 {
        (0, 0, 0)
    } else {
        triple_max(max_specificity(sels.drop_last()), selector_specificity(sels.last()))
    }
}

/// Every selector text fits the specificity counters.
pub open spec fn texts_fit(sels: Seq<Seq<char>>) -> bool {
    forall|i: int| 0 <= i < sels.len() ==> #[trigger] sels[i].len() < u32::MAX
}

/// A copy of a property.
pub fn copy_property(p: &CssProperty) -> (r: CssProperty)
    ensures
        r@ == p@,
{
    CssProperty { name: p.name.clone(), value: p.value.clone() }
}

/// A copy of a list of properties.
pub fn copy_properties(ps: &Vec<CssProperty>) -> (r: Vec<CssProperty>)
    ensures
        props_view(r@) == props_view(ps@),
{
    let mut r: Vec<CssProperty> = Vec::new();
    let mut i: usize = 0;
    while i < ps.len()
        invariant
            i <= ps.len(),
            r@.len() == i,
            props_view(r@) == props_view(ps@.take(i as int)),
        decreases ps.len() - i,
    {
        let p = copy_property(&ps[i]);
        let ghost prev = r@;
        r.push(p);
        assert forall|j: int| 0 <= j < i implies #[trigger] r@[j]@ == ps@[j]@ by {
            assert(r@[j] == prev[j]);
            assert(props_view(prev)[j] == props_view(ps@.take(i as int))[j]);
        }
        i = i + 1;
        assert(props_view(r@) =~= props_view(ps@.take(i as int)));
    }
    assert(ps@.take(ps.len() as int) =~= ps@);
    r
}

impl StyleRule {
    /// Create a rule; its specificity is that of its most specific selector.
    pub fn new(selectors: Vec<CssSelector>, scoped: bool, source_order: usize) -> (r: Self)
        requires
            texts_fit(selector_texts(selectors_view(selectors@))),
        ensures
            r@ == (RuleView {
                selectors: selectors_view(selectors@),
                scoped,
                specificity: max_specificity(selector_texts(selectors_view(selectors@))),
                source_order: source_order as nat,
            }),
    {
        let ghost texts = selector_texts(selectors_view(selectors@));
        let mut best = Specificity(0, 0, 0);
        let mut i: usize = 0;
        assert(texts.take(0) =~= Seq::<Seq<char>>::empty());
        while i < selectors.len()
            invariant
                i <= selectors.len(),
                texts == selector_texts(selectors_view(selectors@)),
                texts_fit(texts),
                best.triple() == max_specificity(texts.take(i as int)),
            decreases selectors.len() - i,
        {
            let chars = chars_of_string(&selectors[i].selector);
            assert(chars@ == texts[i as int]);
            let sp = Self::calculate_specificity_chars(&chars);
            assert(texts.take(i + 1).drop_last() =~= texts.take(i as int));
            if best.0 < sp.0 || (best.0 == sp.0 && (best.1 < sp.1 || (best.1 == sp.1 && best.2
                < sp.2))) {
                best = sp;
            }
            i = i + 1;
        }
        assert(texts.take(selectors.len() as int) =~= texts);
        StyleRule { selectors, scoped, specificity: best, source_order }
    }

    /// Specificity of a selector (a = ids, b = classes/attributes/pseudo-classes,
    /// c = elements/pseudo-elements).
    pub fn calculate_specificity(selector: &str) -> (r: Specificity)
        requires
            selector@.len() < u32::MAX,
        ensures
            r.triple() == selector_specificity(selector@),
    {
        let chars = chars_of(selector);
        Self::calculate_specificity_chars(&chars)
    }

    fn calculate_specificity_chars(sel: &Vec<char>) -> (r: Specificity)
        requires
            sel@.len() < u32::MAX,
        ensures
            r.triple() == selector_specificity(sel@),
    {
        specificity_of(sel)
    }

    /// Prefix every selector of a scoped rule with the component's class
    /// (`.{component_id} {selector}`); the specificity becomes that of the
    /// most specific rewritten selector, as for a new rule (a rule without
    /// selectors keeps its own). Unscoped rules are left unchanged.
    pub fn apply_scoping(&mut self, component_id: &str)
        requires
            forall|i: int|
                0 <= i < old(self).selectors@.len() ==> component_id@.len()
                    + #[trigger] old(self).selectors@[i].selector@.len() + 2 < u32::MAX,
        ensures
            !old(self).scoped ==> final(self)@ == old(self)@,
            old(self).scoped ==> final(self)@ == scoped_rule(old(self)@, component_id@),
    {
        if !self.scoped {
            return;
        }
        let ghost old_view = self@;
        let id = chars_of(component_id);
        let mut old_sels: Vec<CssSelector> = Vec::new();
        std::mem::swap(&mut old_sels, &mut self.selectors);
        let mut new_sels: Vec<CssSelector> = Vec::new();
        let mut best = Specificity(0, 0, 0);
        let mut i: usize = 0;
        assert(selector_texts(scope_selectors(old_view.selectors.take(0), id@)) =~= Seq::<Seq<char>>::empty());
        while i < old_sels.len()
            invariant
                i <= old_sels.len(),
                id@ == component_id@,
                selectors_view(old_sels@) == old_view.selectors,
                forall|j: int|
                    0 <= j < old_sels@.len() ==> id@.len() + #[trigger] old_sels@[j].selector@.len()
                        + 2 < u32::MAX,
                selectors_view(new_sels@) == scope_selectors(old_view.selectors.take(i as int), id@),
                best.triple() == max_specificity(
                    selector_texts(scope_selectors(old_view.selectors.take(i as int), id@)),
                ),
            decreases old_sels.len() - i,
        {
            let old_text = chars_of_string(&old_sels[i].selector);
            let mut text: Vec<char> = Vec::new();
            text.push('.');
            let mut j: usize = 0;
            while j < id.len()
                invariant
                    j <= id.len(),
                    text@ == seq!['.'] + id@.take(j as int),
                decreases id.len() - j,
            {
                text.push(id[j]);
                j = j + 1;
                assert(text@ =~= seq!['.'] + id@.take(j as int));
            }
            text.push(' ');
            let mut k: usize = 0;
            assert(id@.take(id.len() as int) =~= id@);
            while k < old_text.len()
                invariant
                    k <= old_text.len(),
                    text@ == seq!['.'] + id@ + seq![' '] + old_text@.take(k as int),
                decreases old_text.len() - k,
            {
                text.push(old_text[k]);
                k = k + 1;
                assert(text@ =~= seq!['.'] + id@ + seq![' '] + old_text@.take(k as int));
            }
            assert(old_text@.take(old_text.len() as int) =~= old_text@);
            assert(text@ =~= scope_text(id@, old_view.selectors[i as int].0));
            let sp = specificity_of(&text);
            let ghost prev = selector_texts(scope_selectors(old_view.selectors.take(i as int), id@));
            if best.0 < sp.0 || (best.0 == sp.0 && (best.1 < sp.1 || (best.1 == sp.1 && best.2
                < sp.2))) {
                best = sp;
            }
            let props = copy_properties(&old_sels[i].properties);
            let sel = CssSelector { selector: string_from(&text), properties: props };
            new_sels.push(sel);
            i = i + 1;
            assert(old_view.selectors.take(i as int).drop_last() =~= old_view.selectors.take(
                i - 1,
            ));
            assert(selectors_view(new_sels@) =~= scope_selectors(
                old_view.selectors.take(i as int),
                id@,
            ));
            assert(selector_texts(scope_selectors(old_view.selectors.take(i as int), id@)) =~= prev.push(
                text@,
            ));
            assert(prev.push(text@).drop_last() =~= prev);
        }
        assert(old_view.selectors.take(old_sels.len() as int) =~= old_view.selectors);
        let none = old_sels.len() == 0;
        self.selectors = new_sels;
        if !none {
            self.specificity = best;
        }
    }
}

/// The text of a selector scoped to a component: `.{id} {text}`.
pub open spec fn scope_text(id: Seq<char>, text: Seq<char>) -> Seq<char> {
    seq!['.'] + id + seq![' '] + text
}

/// Selectors with their texts scoped to a component.
pub open spec fn scope_selectors(sels: Seq<SelectorView>, id: Seq<char>) -> Seq<SelectorView>
    decreases sels.len(),
{
    if sels.len() == 0 {
        Seq::empty()
    } else {
        scope_selectors(sels.drop_last(), id).push((scope_text(id, sels.last().0), sels.last().1))
    }
}

/// A scoped rule after scoping to a component.
pub open spec fn scoped_rule(r: RuleView, id: Seq<char>) -> RuleView {
    RuleView {
        selectors: scope_selectors(r.selectors, id),
        specificity: if r.selectors.len() == 0 {
            r.specificity
        } else {
            max_specificity(selector_texts(scope_selectors(r.selectors, id)))
        },
        ..r
    }
}

/// The characters of a string.
fn chars_of_string(s: &String) -> (r: Vec<char>)
    ensures
        r@ == s@,
{
    chars_of(s.as_str())
}

/// The state of the stylesheet parser between lines.
pub struct ParseState {
    pub in_rule: bool,
    pub selectors: Seq<Seq<char>>,
    pub properties: Seq<PropView>,
    pub rules: Seq<RuleView>,
    pub order: nat,
}

/// The parser state before the first line.
pub open spec fn initial_state() -> ParseState {
    ParseState {
        in_rule: false,
        selectors: Seq::empty(),
        properties: Seq::empty(),
        rules: Seq::empty(),
        order: 0,
    }
}

/// The selector texts of a rule header line: the text before the first `{`,
/// split at commas, each piece trimmed.
pub open spec fn header_selectors(line: Seq<char>) -> Seq<Seq<char>> {
    split(split(line, '{')[0], ',').map_values(|p: Seq<char>| trim(p))
}

/// The rule closed by a `}` line.
pub open spec fn closed_rule(
    selectors: Seq<Seq<char>>,
    properties: Seq<PropView>,
    scoped: bool,
    order: nat,
) -> RuleView {
    RuleView {
        selectors: selectors.map_values(|t: Seq<char>| (t, properties)),
        scoped,
        specificity: max_specificity(selectors),
        source_order: order,
    }
}

/// The property declared by a `name: value;` line, when the line holds exactly one colon.
pub open spec fn declared_property(line: Seq<char>) -> Option<PropView> {
    let parts = split(line, ':');
    if parts.len() == 2 {
        Some((trim(parts[0]), trim_end_char(trim(parts[1]), ';')))
    } else {
        None
    }
}

/// One line of CSS applied to the parser state.
pub open spec fn parse_step(st: ParseState, raw: Seq<char>, scoped: bool) -> ParseState {
    let line = trim(raw);
    if line.len() == 0 || starts_with(line, seq!['/', '*']) {
        st
    } else if contains(line, seq!['{']) {
        ParseState { in_rule: true, selectors: header_selectors(line), ..st }
    } else if contains(line, seq!['}']) {
        ParseState {
            in_rule: false,
            selectors: Seq::empty(),
            properties: Seq::empty(),
            rules: if st.selectors.len() > 0 {
                st.rules.push(closed_rule(st.selectors, st.properties, scoped, st.order))
            } else {
                st.rules
            },
            order: if st.selectors.len() > 0 {
                st.order + 1
            } else {
                st.order
            },
        }
    } else if st.in_rule && contains(line, seq![':']) {
        match declared_property(line) {
            Some(p) => ParseState { properties: st.properties.push(p), ..st },
            None => st,
        }
    } else {
        st
    }
}

/// The parser state after a list of lines.
pub open spec fn parse_lines(ls: Seq<Seq<char>>, scoped: bool) -> ParseState
    decreases ls.len(),
{
    if ls.len() == 0 {
        initial_state()
    } else {
        parse_step(parse_lines(ls.drop_last(), scoped), ls.last(), scoped)
    }
}

/// The rules parsed from CSS text.
pub open spec fn parse_css(css: Seq<char>, scoped: bool) -> Seq<RuleView> {
    parse_lines(lines(css), scoped).rules
}

impl Stylesheet {
    /// Create an empty stylesheet.
    pub fn new() -> (r: Self)
        ensures
            r@ == Seq::<RuleView>::empty(),
    {
        let r = Stylesheet { rules: Vec::new() };
        assert(r@ =~= Seq::<RuleView>::empty());
        r
    }

    /// Add a rule at the end of the stylesheet.
    pub fn add_rule(&mut self, rule: StyleRule)
        ensures
            final(self)@ == old(self)@.push(rule@),
    {
        let ghost prev = self.rules@;
        self.rules.push(rule);
        assert(rules_view(self.rules@) =~= rules_view(prev).push(rule@));
    }

    /// Parse CSS text line by line. A line holding `{` starts a rule (its
    /// selectors are the comma-separated text before the `{`), a line holding
    /// `}` ends it, and inside a rule a line `name: value` declares a property.
    /// Empty lines and lines starting with `/*` are skipped. Parsing never fails.
    pub fn parse(css: &str, scoped: bool) -> (r: Result<Self, StyleError>)
        requires
            css@.len() < u32::MAX,
        ensures
            r matches Ok(sheet) && sheet@ == parse_css(css@, scoped),
    {
        let chars = chars_of(css);
        let ls = lines_of(&chars);
        let ghost gls = lines(css@);
        proof {
            lemma_lines_len(css@);
        }
        let mut sheet = Stylesheet::new();
        let mut in_rule = false;
        let mut cur_sels: Vec<Vec<char>> = Vec::new();
        let mut cur_props: Vec<CssProperty> = Vec::new();
        let mut order: usize = 0;
        let open_brace = vec!['{'];
        let close_brace = vec!['}'];
        let colon = vec![':'];
        let comment = vec!['/', '*'];
        assert(open_brace@ =~= seq!['{']);
        assert(close_brace@ =~= seq!['}']);
        assert(colon@ =~= seq![':']);
        assert(comment@ =~= seq!['/', '*']);
        let mut i: usize = 0;
        assert(gls.take(0) =~= Seq::<Seq<char>>::empty());
        assert(views(cur_sels@) =~= Seq::<Seq<char>>::empty());
        assert(props_view(cur_props@) =~= Seq::<PropView>::empty());
        while i < ls.len()
            invariant
                views(ls@) == gls,
                css@.len() < u32::MAX,
                forall|j: int| 0 <= j < gls.len() ==> #[trigger] gls[j].len() <= css@.len(),
                open_brace@ == seq!['{'],
                close_brace@ == seq!['}'],
                colon@ == seq![':'],
                comment@ == seq!['/', '*'],
                i <= ls.len(),
                order <= i,
                forall|j: int| 0 <= j < cur_sels@.len() ==> #[trigger] cur_sels@[j]@.len() <= css@.len(),
                parse_lines(gls.take(i as int), scoped) == (ParseState {
                    in_rule,
                    selectors: views(cur_sels@),
                    properties: props_view(cur_props@),
                    rules: sheet@,
                    order: order as nat,
                }),
            decreases ls.len() - i,
        {
            proof {
                assert(gls.take(i + 1).drop_last() =~= gls.take(i as int));
                assert(gls.take(i + 1).last() == gls[i as int]);
            }
            let ghost raw = gls[i as int];
            assert(ls[i as int]@ == raw);
            let line = trim_vec(&ls[i]);
            proof {
                lemma_trim_len(raw);
                lemma_find_correct(line@, seq!['{']);
            }
            if line.len() == 0 || starts_with_at(&line, &comment, 0) {
                assert(line@.skip(0) =~= line@);
            } else if find_in(&line, &open_brace).is_some() {
                assert(line@.skip(0) =~= line@);
                in_rule = true;
                let halves = split_char(&line, '{');
                proof {
                    lemma_split_len(line@, '{');
                }
                let head = &halves[0];
                let pieces = split_char(head, ',');
                proof {
                    lemma_split_len(head@, ',');
                }
                assert(views(halves@)[0] == halves@[0]@);
                assert(split(line@, '{')[0].len() <= line@.len());
                assert(head@.len() <= css@.len());
                assert forall|t: int| 0 <= t < pieces@.len() implies #[trigger] pieces@[t]@.len()
                    <= head@.len() by {
                    assert(views(pieces@)[t] == pieces@[t]@);
                    assert(split(head@, ',')[t].len() <= head@.len());
                }
                let mut sels: Vec<Vec<char>> = Vec::new();
                let mut k: usize = 0;
                while k < pieces.len()
                    invariant
                        k <= pieces.len(),
                        views(pieces@) == split(head@, ','),
                        head@.len() <= css@.len(),
                        forall|t: int| 0 <= t < pieces@.len() ==> #[trigger] pieces@[t]@.len() <= head@.len(),
                        sels@.len() == k,
                        forall|t: int| 0 <= t < k ==> #[trigger] sels@[t]@ == trim(pieces@[t]@),
                        forall|t: int| 0 <= t < k ==> #[trigger] sels@[t]@.len() <= css@.len(),
                    decreases pieces.len() - k,
                {
                    let t = trim_vec(&pieces[k]);
                    proof {
                        lemma_trim_len(pieces@[k as int]@);
                        assert(views(pieces@)[k as int] == pieces@[k as int]@);
                    }
                    sels.push(t);
                    k = k + 1;
                }
                assert(views(sels@) =~= header_selectors(line@)) by {
                    assert(views(halves@)[0] == halves@[0]@);
                    assert forall|t: int| 0 <= t < k implies #[trigger] views(sels@)[t] == header_selectors(line@)[t] by {
                        assert(views(pieces@)[t] == pieces@[t]@);
                    }
                }
                cur_sels = sels;
            } else if find_in(&line, &close_brace).is_some() {
                assert(line@.skip(0) =~= line@);
                in_rule = false;
                if cur_sels.len() > 0 {
                    let mut selectors: Vec<CssSelector> = Vec::new();
                    let mut k: usize = 0;
                    while k < cur_sels.len()
                        invariant
                            k <= cur_sels.len(),
                            css@.len() < u32::MAX,
                            forall|j: int| 0 <= j < cur_sels@.len() ==> #[trigger] cur_sels@[j]@.len() <= css@.len(),
                            selectors@.len() == k,
                            forall|t: int| 0 <= t < k ==> #[trigger] selectors@[t]@ == (cur_sels@[t]@, props_view(cur_props@)),
                        decreases cur_sels.len() - k,
                    {
                        let props = copy_properties(&cur_props);
                        let sel = CssSelector { selector: string_from(&cur_sels[k]), properties: props };
                        selectors.push(sel);
                        k = k + 1;
                    }
                    let ghost texts = selector_texts(selectors_view(selectors@));
                    assert(texts =~= views(cur_sels@));
                    assert(selectors_view(selectors@) =~= views(cur_sels@).map_values(|t: Seq<char>| (t, props_view(cur_props@))));
                    let rule = StyleRule::new(selectors, scoped, order);
                    sheet.add_rule(rule);
                    order = order + 1;
                }
                cur_sels = Vec::new();
                cur_props = Vec::new();
                assert(views(cur_sels@) =~= Seq::<Seq<char>>::empty());
                assert(props_view(cur_props@) =~= Seq::<PropView>::empty());
            } else if in_rule && find_in(&line, &colon).is_some() {
                assert(line@.skip(0) =~= line@);
                let parts = split_char(&line, ':');
                if parts.len() == 2 {
                    let name = trim_vec(&parts[0]);
                    let value0 = trim_vec(&parts[1]);
                    let value = trim_end_char_vec(&value0, ';');
                    assert(views(parts@)[0] == parts@[0]@);
                    assert(views(parts@)[1] == parts@[1]@);
                    let prop = CssProperty { name: string_from(&name), value: string_from(&value) };
                    let ghost prev = cur_props@;
                    cur_props.push(prop);
                    assert(props_view(cur_props@) =~= props_view(prev).push(prop@));
                }
            }
            i = i + 1;
        }
        assert(gls.take(ls.len() as int) =~= gls);
        Ok(sheet)
    }
}


// ---------------------------------------------------------------------
// Property values
// ---------------------------------------------------------------------

/// Visibility values.
#[derive(Debug, Clone, Copy, PartialEq, Eq, Structural)]
pub enum Visibility {
    Visible,
    Hidden,
    Collapse,
}

/// Border line styles.
#[derive(Debug, Clone, Copy, PartialEq, Eq, Structural)]
pub enum BorderStyle {
    NoBorder,
    Solid,
    Dashed,
    Dotted,
    Double,
    Groove,
    Ridge,
    Inset,
    Outset,
}

/// Font weights: the named weights 100 to 900, or any numeric weight.
#[derive(Debug, Clone, Copy, PartialEq, Eq, Structural)]
pub enum FontWeight {
    Thin,
    ExtraLight,
    Light,
    Normal,
    Medium,
    SemiBold,
    Bold,
    ExtraBold,
    Black,
    Numeric(u16),
}

/// Horizontal text alignment.
#[derive(Debug, Clone, Copy, PartialEq, Eq, Structural)]
pub enum TextAlign {
    Left,
    Right,
    Center,
    Justify,
    Start,
    End,
}

/// Text decoration lines.
#[derive(Debug, Clone, Copy, PartialEq, Eq, Structural)]
pub enum TextDecoration {
    NoDecoration,
    Underline,
    Overline,
    LineThrough,
    Blink,
}

/// Text case transformations.
#[derive(Debug, Clone, Copy, PartialEq, Eq, Structural)]
pub enum TextTransform {
    NoTransform,
    Capitalize,
    Uppercase,
    Lowercase,
}

/// Where the jump of a stepped timing function happens.
#[derive(Debug, Clone, Copy, PartialEq, Eq, Structural)]
pub enum StepPosition {
    Start,
    End,
}

/// Mouse cursor shapes.
#[derive(Debug, Clone, Copy, PartialEq, Eq, Structural)]
pub enum CursorType {
    Auto,
    Default,
    NoCursor,
    ContextMenu,
    Help,
    Pointer,
    Progress,
    Wait,
    Cell,
    Crosshair,
    Text,
    VerticalText,
    Alias,
    Copy,
    Move,
    NoDrop,
    NotAllowed,
    Grab,
    Grabbing,
    EResize,
    NResize,
    NeResize,
    NwResize,
    SResize,
    SeResize,
    SwResize,
    WResize,
    EwResize,
    NsResize,
    NeswResize,
    NwseResize,
    ColResize,
    RowResize,
    AllScroll,
    ZoomIn,
    ZoomOut,
}

/// The font weight named by a (trimmed) keyword or one of the nine round
/// numeric weights.
pub open spec fn font_weight_keyword(t: Seq<char>) -> Option<FontWeight> {
    if t == "thin"@ || t == "100"@ {
        Some(FontWeight::Thin)
    } else if t == "extra-light"@ || t == "200"@ {
        Some(FontWeight::ExtraLight)
    } else if t == "light"@ || t == "300"@ {
        Some(FontWeight::Light)
    } else if t == "normal"@ || t == "400"@ {
        Some(FontWeight::Normal)
    } else if t == "medium"@ || t == "500"@ {
        Some(FontWeight::Medium)
    } else if t == "semi-bold"@ || t == "600"@ {
        Some(FontWeight::SemiBold)
    } else if t == "bold"@ || t == "700"@ {
        Some(FontWeight::Bold)
    } else if t == "extra-bold"@ || t == "800"@ {
        Some(FontWeight::ExtraBold)
    } else if t == "black"@ || t == "900"@ {
        Some(FontWeight::Black)
    } else {
        None
    }
}

/// Whether the characters `t` spell the string literal `lit`.
fn is_word(t: &Vec<char>, lit: &str) -> (r: bool)
    ensures
        r == (t@ == lit@),
{
    let w = chars_of(lit);
    eq_chars(t.as_slice(), w.as_slice())
}

/// Parses a CSS `font-weight` value: a keyword or round weight (after
/// trimming), otherwise any `u16` number written by the untrimmed value.
pub fn parse_font_weight(value: &str) -> (r: Result<FontWeight, StyleError>)
    ensures
        match font_weight_keyword(trim(value@)) {
            Some(w) => r == Ok::<FontWeight, StyleError>(w),
            None => match u16_text_value(value@) {
                Some(n) => r == Ok::<FontWeight, StyleError>(FontWeight::Numeric(n)),
                None => r matches Err(StyleError::ParseError(m))
                    && m@ == "Invalid font weight: "@ + value@,
            },
        },
{
    let cs = chars_of(value);
    let t = trim_vec(&cs);
    if is_word(&t, "thin") || is_word(&t, "100") {
        Ok(FontWeight::Thin)
    } else if is_word(&t, "extra-light") || is_word(&t, "200") {
        Ok(FontWeight::ExtraLight)
    } else if is_word(&t, "light") || is_word(&t, "300") {
        Ok(FontWeight::Light)
    } else if is_word(&t, "normal") || is_word(&t, "400") {
        Ok(FontWeight::Normal)
    } else if is_word(&t, "medium") || is_word(&t, "500") {
        Ok(FontWeight::Medium)
    } else if is_word(&t, "semi-bold") || is_word(&t, "600") {
        Ok(FontWeight::SemiBold)
    } else if is_word(&t, "bold") || is_word(&t, "700") {
        Ok(FontWeight::Bold)
    } else if is_word(&t, "extra-bold") || is_word(&t, "800") {
        Ok(FontWeight::ExtraBold)
    } else if is_word(&t, "black") || is_word(&t, "900") {
        Ok(FontWeight::Black)
    } else {
        match parse_u16(cs.as_slice()) {
            Some(n) => Ok(FontWeight::Numeric(n)),
            None => {
                let mut m = String::new();
                push_str(&mut m, "Invalid font weight: ");
                push_str(&mut m, value);
                Err(StyleError::ParseError(m))
            },
        }
    }
}

/// The text alignment named by a (trimmed) keyword.
pub open spec fn text_align_keyword(t: Seq<char>) -> Option<TextAlign> {
    if t == "left"@ {
        Some(TextAlign::Left)
    } else if t == "right"@ {
        Some(TextAlign::Right)
    } else if t == "center"@ {
        Some(TextAlign::Center)
    } else if t == "justify"@ {
        Some(TextAlign::Justify)
    } else if t == "start"@ {
        Some(TextAlign::Start)
    } else if t == "end"@ {
        Some(TextAlign::End)
    } else {
        None
    }
}

/// Parses a CSS `text-align` value.
pub fn parse_text_align(value: &str) -> (r: Result<TextAlign, StyleError>)
    ensures
        match text_align_keyword(trim(value@)) {
            Some(a) => r == Ok::<TextAlign, StyleError>(a),
            None => r matches Err(StyleError::ParseError(m))
                && m@ == "Invalid text align: "@ + value@,
        },
{
    let cs = chars_of(value);
    let t = trim_vec(&cs);
    if is_word(&t, "left") {
        Ok(TextAlign::Left)
    } else if is_word(&t, "right") {
        Ok(TextAlign::Right)
    } else if is_word(&t, "center") {
        Ok(TextAlign::Center)
    } else if is_word(&t, "justify") {
        Ok(TextAlign::Justify)
    } else if is_word(&t, "start") {
        Ok(TextAlign::Start)
    } else if is_word(&t, "end") {
        Ok(TextAlign::End)
    } else {
        let mut m = String::new();
        push_str(&mut m, "Invalid text align: ");
        push_str(&mut m, value);
        Err(StyleError::ParseError(m))
    }
}

} // verus!

verus! {

/// No value ends with a semicolon.
pub open spec fn no_trailing_semicolon(v: Seq<char>) -> bool {
    v.len() == 0 || v.last() != ';'
}

/// Removing trailing occurrences of `c` leaves a prefix without a trailing
/// `c`, and only `c`s were removed.
proof fn lemma_trim_end_char(s: Seq<char>, c: char)
    ensures
        trim_end_char(s, c).len() <= s.len(),
        trim_end_char(s, c) == s.take(trim_end_char(s, c).len() as int),
        forall|i: int| trim_end_char(s, c).len() <= i < s.len() ==> s[i] == c,
        trim_end_char(s, c).len() == 0 || trim_end_char(s, c).last() != c,
    decreases s.len(),
{
    if s.len() > 0 && s.last() == c {
        lemma_trim_end_char(s.drop_last(), c);
        let t = trim_end_char(s.drop_last(), c);
        assert(s.drop_last().take(t.len() as int) =~= s.take(t.len() as int));
        assert forall|i: int| t.len() <= i < s.len() implies s[i] == c by {
            if i < s.len() - 1 {
                assert(s.drop_last()[i] == s[i]);
            }
        }
    } else {
        assert(s.take(s.len() as int) =~= s);
    }
}

/// Law: the property a `name: value;` line declares is named by the
/// trimmed text before its colon, and its value is the trimmed text after
/// the colon without its trailing semicolons: a prefix of that text, what
/// follows it is all `;`, and the value itself does not end with `;`.
pub proof fn law_declared_value(line: Seq<char>)
    requires
        split(line, ':').len() == 2,
    ensures
        declared_property(line) matches Some((n, v)) && {
            let after = trim(split(line, ':')[1]);
            &&& n == trim(split(line, ':')[0])
            &&& v.len() <= after.len()
            &&& v == after.take(v.len() as int)
            &&& forall|i: int| v.len() <= i < after.len() ==> after[i] == ';'
            &&& no_trailing_semicolon(v)
        },
{
    lemma_trim_end_char(trim(split(line, ':')[1]), ';');
}

/// Every property of every rule, and every property gathered so far,
/// has a value without a trailing semicolon.
pub open spec fn values_clean(st: ParseState) -> bool {
    &&& forall|j: int| 0 <= j < st.properties.len() ==> no_trailing_semicolon(#[trigger] st.properties[j].1)
    &&& forall|r: int, s: int, j: int|
        0 <= r < st.rules.len() && 0 <= s < st.rules[r].selectors.len() && 0 <= j
            < st.rules[r].selectors[s].1.len() ==> no_trailing_semicolon(
            #[trigger] st.rules[r].selectors[s].1[j].1,
        )
}

/// Parsing any lines keeps every property value free of a trailing
/// semicolon.
proof fn lemma_lines_clean(ls: Seq<Seq<char>>, scoped: bool)
    ensures
        values_clean(parse_lines(ls, scoped)),
    decreases ls.len(),
{
    if ls.len() > 0 {
        lemma_lines_clean(ls.drop_last(), scoped);
        let st = parse_lines(ls.drop_last(), scoped);
        let line = trim(ls.last());
        if split(line, ':').len() == 2 {
            law_declared_value(line);
        }
        let nx = parse_lines(ls, scoped);
        if !(line.len() == 0 || starts_with(line, seq!['/', '*'])) && !contains(line, seq!['{'])
            && contains(line, seq!['}']) && st.selectors.len() > 0 {
            let nr = closed_rule(st.selectors, st.properties, scoped, st.order);
            assert forall|r: int, s: int, j: int|
                0 <= r < nx.rules.len() && 0 <= s < nx.rules[r].selectors.len() && 0 <= j
                    < nx.rules[r].selectors[s].1.len() implies no_trailing_semicolon(
                    #[trigger] nx.rules[r].selectors[s].1[j].1,
                ) by {
                if r < st.rules.len() {
                    assert(nx.rules[r] == st.rules[r]);
                } else {
                    assert(nx.rules[r] == nr);
                    assert(nr.selectors[s].1 == st.properties);
                }
            }
        }
    }
}

/// Law: no property value of a parsed stylesheet ends with `;`: the
/// semicolon that ends a declaration never stays in its value.
pub proof fn law_parsed_values_have_no_semicolon(css: Seq<char>, scoped: bool)
    ensures
        forall|r: int, s: int, j: int|
            0 <= r < parse_css(css, scoped).len() && 0 <= s < parse_css(css, scoped)[r].selectors.len()
                && 0 <= j < parse_css(css, scoped)[r].selectors[s].1.len() ==> no_trailing_semicolon(
                #[trigger] parse_css(css, scoped)[r].selectors[s].1[j].1,
            ),
{
    lemma_lines_clean(lines(css), scoped);
}

/// `x` comes before `y` when compared by ids, then classes, then elements.
pub open spec fn lex_before(x: (int, int, int), y: (int, int, int)) -> bool {
    ||| x.0 < y.0
    ||| x.0 == y.0 && x.1 < y.1
    ||| x.0 == y.0 && x.1 == y.1 && x.2 < y.2
}

/// A text holds no more `::` than `:`.
proof fn lemma_double_colons(s: Seq<char>)
    ensures
        count_matches(s, seq![':', ':']) <= count_matches(s, seq![':']),
    decreases s.len(),
{
    let dd = seq![':', ':'];
    let d = seq![':'];
    if s.len() > 0 {
        if starts_with(s, dd) {
            assert(s.take(2)[0] == ':');
            assert(s.take(1) =~= d);
            assert(s.skip(1).take(1) =~= d) by {
                assert(s.take(2)[1] == ':');
            }
            assert(s.skip(1).skip(1) =~= s.skip(2));
            lemma_double_colons(s.skip(2));
            assert(count_matches(s.skip(1), d) == 1 + count_matches(s.skip(2), d));
        } else {
            lemma_double_colons(s.drop_first());
            if starts_with(s, d) {
                assert(s.skip(1) =~= s.drop_first());
            }
        }
    }
}

/// Specificity counts are never negative.
proof fn lemma_parts_nonneg(parts: Seq<Seq<char>>)
    ensures
        parts_specificity(parts).0 >= 0,
        parts_specificity(parts).1 >= 0,
        parts_specificity(parts).2 >= 0,
    decreases parts.len(),
{
    if parts.len() > 0 {
        lemma_parts_nonneg(parts.drop_last());
        lemma_double_colons(parts.last());
    }
}

/// Law: the specificity of a list of selectors is the lexicographic
/// maximum of theirs, over all three counts: it is the specificity of one
/// of them (or zero for none), and none of them comes after it.
pub proof fn law_max_specificity(sels: Seq<Seq<char>>)
    ensures
        sels.len() == 0 ==> max_specificity(sels) == (0int, 0int, 0int),
        sels.len() > 0 ==> exists|i: int| 0 <= i < sels.len() && max_specificity(sels) == selector_specificity(#[trigger] sels[i]),
        forall|i: int| 0 <= i < sels.len() ==> !lex_before(max_specificity(sels), #[trigger] selector_specificity(sels[i])),
    decreases sels.len(),
{
    if sels.len() > 0 {
        let init = sels.drop_last();
        law_max_specificity(init);
        let m = max_specificity(init);
        let t = selector_specificity(sels.last());
        assert forall|i: int| 0 <= i < sels.len() implies !lex_before(max_specificity(sels), #[trigger] selector_specificity(sels[i])) by {
            if i < sels.len() - 1 {
                assert(sels[i] == init[i]);
                assert(!lex_before(m, selector_specificity(init[i])));
            }
        }
        if init.len() == 0 {
            lemma_parts_nonneg(split(sels.last(), ' '));
            assert(max_specificity(sels) == t || max_specificity(sels) == m);
            if max_specificity(sels) == m {
                assert(!triple_lt(m, t));
                assert(m == (0int, 0int, 0int));
            }
            assert(selector_specificity(sels[sels.len() - 1]) == t);
        } else if triple_lt(m, t) {
            assert(selector_specificity(sels[sels.len() - 1]) == t);
        } else {
            let i = choose|i: int| 0 <= i < init.len() && m == selector_specificity(#[trigger] init[i]);
            assert(sels[i] == init[i]);
        }
    }
}

/// Law: a new rule's specificity is the lexicographic maximum of its
/// selectors' specificities: one of them, and none comes after it.
pub proof fn law_rule_specificity(selectors: Seq<SelectorView>, r: RuleView)
    requires
        r.specificity == max_specificity(selector_texts(selectors)),
        selectors.len() > 0,
    ensures
        exists|i: int| 0 <= i < selectors.len() && r.specificity == selector_specificity(#[trigger] selectors[i].0),
        forall|i: int| 0 <= i < selectors.len() ==> !lex_before(r.specificity, selector_specificity(#[trigger] selectors[i].0)),
{
    let texts = selector_texts(selectors);
    law_max_specificity(texts);
    let i = choose|i: int| 0 <= i < texts.len() && max_specificity(texts) == selector_specificity(#[trigger] texts[i]);
    assert(texts[i] == selectors[i].0);
    assert forall|j: int| 0 <= j < selectors.len() implies !lex_before(r.specificity, selector_specificity(#[trigger] selectors[j].0)) by {
        assert(texts[j] == selectors[j].0);
    }
}

/// No whitespace at either end.
pub open spec fn trimmed(t: Seq<char>) -> bool {
    t.len() == 0 || (!is_ws(t[0]) && !is_ws(t.last()))
}

/// No whitespace at the start.
pub open spec fn start_trimmed(t: Seq<char>) -> bool {
    t.len() == 0 || !is_ws(t[0])
}

/// Trimming leaves no whitespace at either end.
proof fn lemma_trim_trimmed(s: Seq<char>)
    ensures
        trimmed(trim(s)),
{
    lemma_trim_start_clean(s);
    lemma_trim_end_prefix(trim_start(s));
}

/// Without leading whitespace.
proof fn lemma_trim_start_clean(s: Seq<char>)
    ensures
        start_trimmed(trim_start(s)),
    decreases s.len(),
{
    if s.len() > 0 && is_ws(s[0]) {
        lemma_trim_start_clean(s.drop_first());
    }
}

/// Removing trailing whitespace keeps a prefix, and leaves none at the end.
proof fn lemma_trim_end_prefix(s: Seq<char>)
    ensures
        trim_end(s).len() <= s.len(),
        trim_end(s) == s.take(trim_end(s).len() as int),
        trim_end(s).len() == 0 || !is_ws(trim_end(s).last()),
        start_trimmed(s) ==> trimmed(trim_end(s)),
    decreases s.len(),
{
    if s.len() > 0 && is_ws(s.last()) {
        lemma_trim_end_prefix(s.drop_last());
        let t = trim_end(s.drop_last());
        assert(s.drop_last().take(t.len() as int) =~= s.take(t.len() as int));
        if t.len() > 0 {
            assert(t[0] == s[0]);
        }
    } else {
        assert(s.take(s.len() as int) =~= s);
    }
}

/// Selector texts and property names have no surrounding whitespace, and
/// property values none in front.
pub open spec fn texts_clean(st: ParseState) -> bool {
    &&& forall|j: int| 0 <= j < st.selectors.len() ==> trimmed(#[trigger] st.selectors[j])
    &&& forall|j: int|
        0 <= j < st.properties.len() ==> trimmed(#[trigger] st.properties[j].0) && start_trimmed(
            st.properties[j].1,
        )
    &&& forall|r: int, s: int|
        0 <= r < st.rules.len() && 0 <= s < st.rules[r].selectors.len() ==> trimmed(
            #[trigger] st.rules[r].selectors[s].0,
        )
    &&& forall|r: int, s: int, j: int|
        0 <= r < st.rules.len() && 0 <= s < st.rules[r].selectors.len() && 0 <= j
            < st.rules[r].selectors[s].1.len() ==> trimmed(#[trigger] st.rules[r].selectors[s].1[j].0)
            && start_trimmed(st.rules[r].selectors[s].1[j].1)
}

/// Parsing any lines keeps selector texts and property names trimmed.
proof fn lemma_lines_texts_clean(ls: Seq<Seq<char>>, scoped: bool)
    ensures
        texts_clean(parse_lines(ls, scoped)),
    decreases ls.len(),
{
    if ls.len() > 0 {
        lemma_lines_texts_clean(ls.drop_last(), scoped);
        let st = parse_lines(ls.drop_last(), scoped);
        let line = trim(ls.last());
        let nx = parse_lines(ls, scoped);
        if !(line.len() == 0 || starts_with(line, seq!['/', '*'])) {
            if contains(line, seq!['{']) {
                let hs = header_selectors(line);
                assert forall|j: int| 0 <= j < hs.len() implies trimmed(#[trigger] hs[j]) by {
                    lemma_trim_trimmed(split(split(line, '{')[0], ',')[j]);
                }
            } else if contains(line, seq!['}']) {
                if st.selectors.len() > 0 {
                    let nr = closed_rule(st.selectors, st.properties, scoped, st.order);
                    assert forall|r: int, s: int|
                        0 <= r < nx.rules.len() && 0 <= s < nx.rules[r].selectors.len() implies trimmed(
                            #[trigger] nx.rules[r].selectors[s].0,
                        ) by {
                        if r < st.rules.len() {
                            assert(nx.rules[r] == st.rules[r]);
                        } else {
                            assert(nx.rules[r].selectors[s].0 == st.selectors[s]);
                        }
                    }
                    assert forall|r: int, s: int, j: int|
                        0 <= r < nx.rules.len() && 0 <= s < nx.rules[r].selectors.len() && 0 <= j
                            < nx.rules[r].selectors[s].1.len() implies trimmed(
                            #[trigger] nx.rules[r].selectors[s].1[j].0,
                        ) && start_trimmed(nx.rules[r].selectors[s].1[j].1) by {
                        if r < st.rules.len() {
                            assert(nx.rules[r] == st.rules[r]);
                        } else {
                            assert(nx.rules[r].selectors[s].1 == st.properties);
                        }
                    }
                }
            } else if st.in_rule && contains(line, seq![':']) {
                let parts = split(line, ':');
                if parts.len() == 2 {
                    lemma_trim_trimmed(parts[0]);
                    lemma_trim_trimmed(parts[1]);
                    lemma_trim_end_char(trim(parts[1]), ';');
                    let v = trim_end_char(trim(parts[1]), ';');
                    if v.len() > 0 {
                        assert(v[0] == trim(parts[1])[0]);
                    }
                }
            }
        }
    }
}

/// Law: in a parsed stylesheet, selector texts and property names have no
/// whitespace at either end, and property values none in front: each is
/// trimmed as the line it comes from is read.
pub proof fn law_parsed_texts_trimmed(css: Seq<char>, scoped: bool)
    ensures
        forall|r: int, s: int|
            0 <= r < parse_css(css, scoped).len() && 0 <= s < parse_css(css, scoped)[r].selectors.len()
                ==> trimmed(#[trigger] parse_css(css, scoped)[r].selectors[s].0),
        forall|r: int, s: int, j: int|
            0 <= r < parse_css(css, scoped).len() && 0 <= s < parse_css(css, scoped)[r].selectors.len()
                && 0 <= j < parse_css(css, scoped)[r].selectors[s].1.len() ==> trimmed(
                #[trigger] parse_css(css, scoped)[r].selectors[s].1[j].0,
            ) && start_trimmed(parse_css(css, scoped)[r].selectors[s].1[j].1),
{
    lemma_lines_texts_clean(lines(css), scoped);
    let st = parse_lines(lines(css), scoped);
    assert forall|r: int, s: int, j: int|
        0 <= r < parse_css(css, scoped).len() && 0 <= s < parse_css(css, scoped)[r].selectors.len() && 0 <= j
            < parse_css(css, scoped)[r].selectors[s].1.len() implies trimmed(
            #[trigger] parse_css(css, scoped)[r].selectors[s].1[j].0,
        ) && start_trimmed(parse_css(css, scoped)[r].selectors[s].1[j].1) by {
        assert(trimmed(st.rules[r].selectors[s].1[j].0));
    }
}

} // verus!
