//! The selector parser: simple selectors (`tag`, `#id`, `.class`, `*`), the
//! comma-separated selector list of a style rule, and the specificity order
//! that ranks them.
//!
//! As in the markup parser, the grammar is stated as total specification
//! functions over the character sequence, and every executable step is proved
//! to return exactly what they say. The selector list of a rule is sorted by
//! descending specificity with a stable insertion sort, so selectors of equal
//! specificity keep their input order.

use vstd::prelude::*;

use crate::scan::{CharTest, Cursor, ParseError, is_ident_char, scan_end};
use crate::parser::{step, ws_step};

verus! {

/// The model of a simple selector: an optional tag name, an optional id, and
/// the class names in order of appearance.
#[verifier::ext_equal]
pub struct SimpleSelectorView {
    pub tag_name: Option<Seq<char>>,
    pub id: Option<Seq<char>>,
    pub class: Seq<Seq<char>>,
}

/// The model of a selector; simple selectors are the only case for now, and
/// the enumeration leaves room for combinator cases.
#[verifier::ext_equal]
pub enum SelectorView {
    Simple(SimpleSelectorView),
}

/// A selector with at most one tag name, one id, and any number of classes.
#[derive(Debug)]
pub struct SimpleSelector {
    pub tag_name: Option<String>,
    pub id: Option<String>,
    pub class: Vec<String>,
}

impl View for SimpleSelector {
    type V = SimpleSelectorView;

    open spec fn view(&self) -> SimpleSelectorView {
        SimpleSelectorView {
            tag_name: match self.tag_name {
                Some(t) => Some(t@),
                None => None,
            },
            id: match self.id {
                Some(t) => Some(t@),
                None => None,
            },
            class: Seq::new(self.class@.len(), |i: int| self.class@[i]@),
        }
    }
}

impl SimpleSelector {
    /// A selector with no constraints at all.
    pub fn new() -> (r: SimpleSelector)
        ensures
            r@ == empty_selector(),
    {
        let r = SimpleSelector { tag_name: None, id: None, class: Vec::new() };
        proof {
            assert(r@ =~= empty_selector());
        }
        r
    }
}

/// The selector that constrains nothing.
pub open spec fn empty_selector() -> SimpleSelectorView {
    SimpleSelectorView { tag_name: None, id: None, class: Seq::empty() }
}

/// A selector used to pick the nodes a style rule applies to.
#[derive(Debug)]
pub enum Selector {
    Simple(SimpleSelector),
}

impl View for Selector {
    type V = SelectorView;

    open spec fn view(&self) -> SelectorView {
        match self {
            Selector::Simple(s) => SelectorView::Simple(s@),
        }
    }
}

/// The views of a sequence of selectors, in order.
pub open spec fn views_of_sels(s: Seq<Selector>) -> Seq<SelectorView> {
    Seq::new(s.len(), |i: int| s[i]@)
}

/// The weight that decides which of two conflicting rules applies: id count,
/// class count, tag count, compared lexicographically.
pub type Specificity = (usize, usize, usize);

/// The specificity of a selector: whether it has an id, how many classes it
/// names, whether it names a tag.
pub open spec fn spec_specificity(v: SelectorView) -> (int, int, int) {
    match v {
        SelectorView::Simple(s) => (
            if s.id is Some {
                1int
            } else {
                0int
            },
            s.class.len() as int,
            if s.tag_name is Some {
                1int
            } else {
                0int
            },
        ),
    }
}

/// Lexicographic order on specificities: `a` ranks at least as high as `b`.
pub open spec fn spec_ge(a: (int, int, int), b: (int, int, int)) -> bool {
    a.0 > b.0 || (a.0 == b.0 && (a.1 > b.1 || (a.1 == b.1 && a.2 >= b.2)))
}

impl Selector {
    /// The selector's specificity.
    pub fn specificity(&self) -> (r: Specificity)
        ensures
            (r.0 as int, r.1 as int, r.2 as int) == spec_specificity(self@),
    {
        match self {
            Selector::Simple(simple) => {
                let a: usize = if simple.id.is_some() {
                    1
                } else {
                    0
                };
                let b: usize = simple.class.len();
                let c: usize = if simple.tag_name.is_some() {
                    1
                } else {
                    0
                };
                (a, b, c)
            },
        }
    }
}

/// Where `x` belongs in the descending list `s`: after every element that
/// ranks at least as high, before the rest. Inserting after equals keeps
/// equal selectors in arrival order.
pub open spec fn insert_sel(s: Seq<SelectorView>, x: SelectorView) -> Seq<SelectorView>
    decreases s.len(),
{
    if s.len() == 0 {
        seq![x]
    } else if spec_ge(spec_specificity(s.last()), spec_specificity(x)) {
        s.push(x)
    } else {
        insert_sel(s.drop_last(), x).push(s.last())
    }
}

/// The stable descending sort of a selector list: each selector in turn is
/// inserted behind those that rank at least as high.
pub open spec fn sort_sels(s: Seq<SelectorView>) -> Seq<SelectorView>
    decreases s.len(),
{
    if s.len() == 0 {
        s
    } else {
        insert_sel(sort_sels(s.drop_last()), s.last())
    }
}

/// Every pair of the sequence is in descending specificity order.
pub open spec fn sorted_desc(s: Seq<SelectorView>) -> bool {
    forall|a: int, b: int|
        0 <= a < b < s.len() ==> spec_ge(
            spec_specificity(s[a]),
            spec_specificity(s[b]),
        )
}

/// Inserting into a descending list at the position the specification names
/// gives exactly the split-and-join of the list around that position.
proof fn lemma_insert_sel_at(s: Seq<SelectorView>, x: SelectorView, k: int)
    requires
        0 <= k <= s.len(),
        forall|j: int|
            k <= j < s.len() ==> !spec_ge(
                spec_specificity(s[j]),
                spec_specificity(x),
            ),
        k > 0 ==> spec_ge(spec_specificity(s[k - 1]), spec_specificity(x)),
    ensures
        insert_sel(s, x) == s.subrange(0, k) + seq![x] + s.subrange(k, s.len() as int),
    decreases s.len(),
{
    if s.len() == 0 {
        assert(insert_sel(s, x) =~= s.subrange(0, k) + seq![x] + s.subrange(k, s.len() as int));
    } else if k == s.len() {
        assert(insert_sel(s, x) == s.push(x));
        assert(s.push(x) =~= s.subrange(0, k) + seq![x] + s.subrange(k, s.len() as int));
    } else {
        assert(!spec_ge(spec_specificity(s.last()), spec_specificity(x)));
        lemma_insert_sel_at(s.drop_last(), x, k);
        assert(insert_sel(s, x) == insert_sel(s.drop_last(), x).push(s.last()));
        assert(s.drop_last().subrange(0, k) =~= s.subrange(0, k));
        assert(s.drop_last().subrange(k, s.drop_last().len() as int) =~= s.subrange(
            k,
            s.len() - 1,
        ));
        assert((s.subrange(0, k) + seq![x] + s.subrange(k, s.len() - 1)).push(s.last())
            =~= s.subrange(0, k) + seq![x] + s.subrange(k, s.len() as int));
    }
}

/// Insertion keeps a descending list descending, lengthens it by one, and
/// adds no selector but the inserted one.
proof fn lemma_insert_sel_sorted(s: Seq<SelectorView>, x: SelectorView)
    requires
        sorted_desc(s),
    ensures
        sorted_desc(insert_sel(s, x)),
        insert_sel(s, x).len() == s.len() + 1,
        forall|a: int|
            0 <= a < insert_sel(s, x).len() ==> #[trigger] insert_sel(s, x)[a] == x
                || s.contains(insert_sel(s, x)[a]),
    decreases s.len(),
{
    let t = insert_sel(s, x);
    if s.len() == 0 {
        assert(t == seq![x]);
    } else if spec_ge(spec_specificity(s.last()), spec_specificity(x)) {
        assert(t == s.push(x));
        assert forall|a: int, b: int| 0 <= a < b < t.len() implies spec_ge(
            spec_specificity(t[a]),
            spec_specificity(t[b]),
        ) by {
            if b == t.len() - 1 {
                if a < s.len() - 1 {
                    assert(spec_ge(spec_specificity(s[a]), spec_specificity(s[s.len() - 1])));
                }
            } else {
                assert(spec_ge(spec_specificity(s[a]), spec_specificity(s[b])));
            }
        }
        assert forall|a: int| 0 <= a < t.len() implies #[trigger] t[a] == x || s.contains(
            t[a],
        ) by {
            if a < s.len() {
                assert(s[a] == t[a]);
            }
        }
    } else {
        let d = s.drop_last();
        assert(sorted_desc(d)) by {
            assert forall|a: int, b: int| 0 <= a < b < d.len() implies spec_ge(
                spec_specificity(d[a]),
                spec_specificity(d[b]),
            ) by {
                assert(spec_ge(spec_specificity(s[a]), spec_specificity(s[b])));
            }
        }
        lemma_insert_sel_sorted(d, x);
        let u = insert_sel(d, x);
        assert(t == u.push(s.last()));
        assert forall|a: int| 0 <= a < u.len() implies spec_ge(
            spec_specificity(u[a]),
            spec_specificity(s.last()),
        ) by {
            if u[a] == x {
            } else {
                assert(d.contains(u[a]));
                let i = choose|i: int| 0 <= i < d.len() && d[i] == u[a];
                assert(spec_ge(spec_specificity(s[i]), spec_specificity(s[s.len() - 1])));
            }
        }
        assert forall|a: int, b: int| 0 <= a < b < t.len() implies spec_ge(
            spec_specificity(t[a]),
            spec_specificity(t[b]),
        ) by {
            if b < u.len() {
                assert(spec_ge(spec_specificity(u[a]), spec_specificity(u[b])));
            }
        }
        assert forall|a: int| 0 <= a < t.len() implies #[trigger] t[a] == x || s.contains(
            t[a],
        ) by {
            if a < u.len() {
                if u[a] != x {
                    assert(d.contains(u[a]));
                    let i = choose|i: int| 0 <= i < d.len() && d[i] == u[a];
                    assert(s[i] == t[a]);
                }
            } else {
                assert(s[s.len() - 1] == t[a]);
            }
        }
    }
}

/// The sorted selector list is in descending specificity order: the most
/// specific selector comes first, and nothing outranks an earlier entry.
pub proof fn lemma_sort_sels_sorted(s: Seq<SelectorView>)
    ensures
        sorted_desc(sort_sels(s)),
        sort_sels(s).len() == s.len(),
    decreases s.len(),
{
    if s.len() > 0 {
        lemma_sort_sels_sorted(s.drop_last());
        lemma_insert_sel_sorted(sort_sels(s.drop_last()), s.last());
    }
}

/// Sorting neither adds, drops nor changes a selector: the output holds
/// exactly the input selectors.
pub proof fn lemma_sort_sels_permutes(s: Seq<SelectorView>)
    ensures
        sort_sels(s).to_multiset() == s.to_multiset(),
    decreases s.len(),
{
    if s.len() > 0 {
        lemma_sort_sels_permutes(s.drop_last());
        lemma_insert_sel_multiset(sort_sels(s.drop_last()), s.last());
        s.drop_last().to_multiset_ensures();
        assert(s.drop_last().push(s.last()) =~= s);
        assert(s.drop_last().push(s.last()).to_multiset() == s.drop_last().to_multiset().insert(
            s.last(),
        ));
    }
}

/// Inserting a selector adds exactly it to the list's contents.
proof fn lemma_insert_sel_multiset(s: Seq<SelectorView>, x: SelectorView)
    ensures
        insert_sel(s, x).to_multiset() == s.to_multiset().insert(x),
    decreases s.len(),
{
    s.to_multiset_ensures();
    if s.len() == 0 {
        assert(seq![x] =~= s.push(x));
    } else if spec_ge(spec_specificity(s.last()), spec_specificity(x)) {
    } else {
        let d = s.drop_last();
        lemma_insert_sel_multiset(d, x);
        let u = insert_sel(d, x);
        u.to_multiset_ensures();
        d.to_multiset_ensures();
        assert(insert_sel(s, x) == u.push(s.last()));
        assert(u.push(s.last()).to_multiset() == u.to_multiset().insert(s.last()));
        assert(d.to_multiset().insert(x).insert(s.last()) =~= d.to_multiset().insert(
            s.last(),
        ).insert(x));
        assert(d.push(s.last()) =~= s);
    }
}

/// Does `sel` rank strictly below the specificity `xs`?
fn ranks_below(sel: &Selector, xs: Specificity) -> (b: bool)
    ensures
        b == !spec_ge(spec_specificity(sel@), (xs.0 as int, xs.1 as int, xs.2 as int)),
{
    let prev = sel.specificity();
    prev.0 < xs.0 || (prev.0 == xs.0 && (prev.1 < xs.1 || (prev.1 == xs.1 && prev.2 < xs.2)))
}

/// Sort a selector list into descending specificity order, stably.
#[verifier::loop_isolation(false)]
fn sort_selectors(v: Vec<Selector>) -> (r: Vec<Selector>)
    ensures
        views_of_sels(r@) == sort_sels(views_of_sels(v@)),
{
    let ghost full = views_of_sels(v@);
    let mut rest = v;
    let mut out: Vec<Selector> = Vec::new();
    let ghost mut done: int = 0;
    proof {
        assert(views_of_sels(out@) =~= sort_sels(full.subrange(0, 0)));
    }
    loop
        invariant
            0 <= done <= full.len(),
            rest@.len() == full.len() - done,
            views_of_sels(rest@) =~= full.subrange(done, full.len() as int),
            views_of_sels(out@) == sort_sels(full.subrange(0, done)),
        decreases rest@.len(),
    {
        if rest.len() == 0 {
            proof {
                assert(full.subrange(0, done) =~= full);
            }
            return out;
        }
        let ghost out0 = views_of_sels(out@);
        let ghost rest0 = rest@;
        let x = rest.remove(0);
        proof {
            assert(x == rest0[0]);
            assert(x@ == views_of_sels(rest0)[0]);
            assert(x@ == full[done]);
            assert forall|i: int| 0 <= i < rest@.len() implies views_of_sels(rest@)[i]
                == full.subrange(done + 1, full.len() as int)[i] by {
                assert(rest@[i] == rest0[i + 1]);
                assert(views_of_sels(rest0)[i + 1] == full.subrange(done, full.len() as int)[i
                    + 1]);
            }
            assert(views_of_sels(rest@) =~= full.subrange(done + 1, full.len() as int));
        }
        let xs = x.specificity();
        let mut k: usize = out.len();
        while k > 0 && ranks_below(&out[k - 1], xs)
            invariant
                0 <= k <= out@.len(),
                forall|j: int|
                    k <= j < out@.len() ==> !spec_ge(
                        spec_specificity(out0[j]),
                        spec_specificity(x@),
                    ),
            decreases k,
        {
            k = k - 1;
        }
        out.insert(k, x);
        proof {
            lemma_insert_sel_at(out0, x@, k as int);
            assert(views_of_sels(out@) =~= out0.subrange(0, k as int) + seq![x@]
                + out0.subrange(k as int, out0.len() as int));
            assert(full.subrange(0, done + 1).drop_last() =~= full.subrange(0, done));
            assert(full.subrange(0, done + 1).last() == full[done]);
            done = done + 1;
        }
    }
}

/// One simple selector from `i` on, accumulated onto `sel`: `#` takes the
/// following identifier as the id, `.` appends it to the classes, `*`
/// constrains nothing, a bare identifier becomes the tag name (a later one
/// replacing an earlier one), and any other character ends the selector.
pub open spec fn spec_parse_simple_selector(
    s: Seq<char>,
    i: int,
    sel: SimpleSelectorView,
) -> (SimpleSelectorView, int)
    decreases s.len() - i,
{
    if !(0 <= i < s.len()) {
        (sel, i)
    } else if s[i] == '#' {
        let j = step(i, scan_end(s, i + 1, CharTest::Ident), s.len() as int);
        spec_parse_simple_selector(
            s,
            j,
            SimpleSelectorView { id: Some(s.subrange(i + 1, j)), ..sel },
        )
    } else if s[i] == '.' {
        let j = step(i, scan_end(s, i + 1, CharTest::Ident), s.len() as int);
        spec_parse_simple_selector(
            s,
            j,
            SimpleSelectorView { class: sel.class.push(s.subrange(i + 1, j)), ..sel },
        )
    } else if s[i] == '*' {
        spec_parse_simple_selector(s, i + 1, sel)
    } else if is_ident_char(s[i]) {
        let j = step(i, scan_end(s, i, CharTest::Ident), s.len() as int);
        spec_parse_simple_selector(
            s,
            j,
            SimpleSelectorView { tag_name: Some(s.subrange(i, j)), ..sel },
        )
    } else {
        (sel, i)
    }
}

/// The comma-separated selector list of one rule, ended by the `{` of its
/// declarations, sorted by descending specificity. Any other character after
/// a selector, or input ending before `{`, aborts the parse.
pub open spec fn spec_parse_selectors(
    s: Seq<char>,
    i: int,
    acc: Seq<SelectorView>,
) -> Result<(Seq<SelectorView>, int), ParseError>
    decreases s.len() - i,
{
    let sp = spec_parse_simple_selector(s, i, empty_selector());
    let p = if i <= sp.1 && sp.1 <= s.len() {
        sp.1
    } else {
        i
    };
    let j = ws_step(s, p);
    if j >= s.len() {
        Err(ParseError::UnexpectedCharacter)
    } else if s[j] == ',' {
        spec_parse_selectors(s, ws_step(s, j + 1), acc.push(SelectorView::Simple(sp.0)))
    } else if s[j] == '{' {
        Ok((sort_sels(acc.push(SelectorView::Simple(sp.0))), j))
    } else {
        Err(ParseError::UnexpectedCharacter)
    }
}

/// The selector parser: the style-sheet text and the scan position.
pub struct Css {
    pub c: Cursor,
}

impl Css {
    /// The style-sheet text as a sequence of characters.
    pub open spec fn text(&self) -> Seq<char> {
        self.c.text()
    }

    /// The scan position.
    pub open spec fn at(&self) -> int {
        self.c.at()
    }

    /// The position is in bounds.
    pub open spec fn wf(&self) -> bool {
        self.c.wf()
    }

    /// A selector parser at the start of the given input.
    pub fn new(input: String) -> (r: Css)
        ensures
            r.wf(),
            r.text() == input@,
            r.at() == 0,
    {
        Css { c: Cursor::new(input) }
    }

    /// Consume one simple selector.
    #[verifier::loop_isolation(false)]
    pub fn parse_simple_selector(&mut self) -> (r: SimpleSelector)
        requires
            old(self).wf(),
        ensures
            final(self).wf(),
            final(self).text() == old(self).text(),
            final(self).at() >= old(self).at(),
            spec_parse_simple_selector(old(self).text(), old(self).at(), empty_selector()) == (
                r@,
                final(self).at(),
            ),
    {
        let ghost s = self.text();
        let ghost i0 = self.at();
        let mut selector = SimpleSelector::new();
        loop
            invariant
                self.wf(),
                self.text() == s,
                i0 <= self.at() <= s.len(),
                spec_parse_simple_selector(s, i0, empty_selector())
                    == spec_parse_simple_selector(s, self.at(), selector@),
            decreases s.len() - self.at(),
        {
            let ghost cur = self.at();
            let ghost sel0 = selector@;
            if self.c.eof() {
                return selector;
            }
            let c = self.c.next_char();
            if c == '#' {
                let _h = self.c.consume_char();
                let id = self.c.consume_while(CharTest::Ident);
                selector.id = Some(id);
                proof {
                    assert(step(cur, scan_end(s, cur + 1, CharTest::Ident), s.len() as int)
                        == self.at());
                    assert(selector@ =~= (SimpleSelectorView {
                        id: Some(s.subrange(cur + 1, self.at())),
                        ..sel0
                    }));
                }
            } else if c == '.' {
                let _d = self.c.consume_char();
                let cl = self.c.consume_while(CharTest::Ident);
                selector.class.push(cl);
                proof {
                    assert(step(cur, scan_end(s, cur + 1, CharTest::Ident), s.len() as int)
                        == self.at());
                    assert(selector@ =~= (SimpleSelectorView {
                        class: sel0.class.push(s.subrange(cur + 1, self.at())),
                        ..sel0
                    }));
                }
            } else if c == '*' {
                let _u = self.c.consume_char();
            } else if CharTest::Ident.eval(c) {
                let t = self.c.consume_while(CharTest::Ident);
                selector.tag_name = Some(t);
                proof {
                    crate::scan::lemma_scan_end(s, cur, CharTest::Ident);
                    assert(self.at() > cur);
                    assert(step(cur, scan_end(s, cur, CharTest::Ident), s.len() as int)
                        == self.at());
                    assert(selector@ =~= (SimpleSelectorView {
                        tag_name: Some(s.subrange(cur, self.at())),
                        ..sel0
                    }));
                }
            } else {
                return selector;
            }
        }
    }

    /// Consume the selector list of one rule, up to but not including the
    /// `{` of its declarations, and return it sorted by descending
    /// specificity, selectors of equal specificity in input order.
    #[verifier::loop_isolation(false)]
    pub fn parse_selectors(&mut self) -> (r: Result<Vec<Selector>, ParseError>)
        requires
            old(self).wf(),
        ensures
            final(self).wf(),
            final(self).text() == old(self).text(),
            final(self).at() >= old(self).at(),
            match r {
                Ok(v) => spec_parse_selectors(old(self).text(), old(self).at(), Seq::empty())
                    == Ok::<(Seq<SelectorView>, int), ParseError>(
                    (views_of_sels(v@), final(self).at()),
                ) && sorted_desc(views_of_sels(v@)),
                Err(e) => spec_parse_selectors(old(self).text(), old(self).at(), Seq::empty())
                    == Err::<(Seq<SelectorView>, int), ParseError>(e),
            },
    {
        let ghost s = self.text();
        let ghost i0 = self.at();
        let mut selectors: Vec<Selector> = Vec::new();
        proof {
            assert(views_of_sels(selectors@) =~= Seq::<SelectorView>::empty());
        }
        loop
            invariant
                self.wf(),
                self.text() == s,
                i0 <= self.at() <= s.len(),
                spec_parse_selectors(s, i0, Seq::empty()) == spec_parse_selectors(
                    s,
                    self.at(),
                    views_of_sels(selectors@),
                ),
            decreases s.len() - self.at(),
        {
            let ghost cur = self.at();
            let ghost acc0 = views_of_sels(selectors@);
            let sel = self.parse_simple_selector();
            selectors.push(Selector::Simple(sel));
            proof {
                assert(views_of_sels(selectors@) =~= acc0.push(SelectorView::Simple(sel@)));
            }
            self.c.consume_whitespace();
            if self.c.eof() {
                return Err(ParseError::UnexpectedCharacter);
            }
            let c = self.c.next_char();
            if c == ',' {
                let _c = self.c.consume_char();
                self.c.consume_whitespace();
            } else if c == '{' {
                let ghost acc1 = views_of_sels(selectors@);
                let sorted = sort_selectors(selectors);
                proof {
                    lemma_sort_sels_sorted(acc1);
                }
                return Ok(sorted);
            } else {
                return Err(ParseError::UnexpectedCharacter);
            }
        }
    }
}

} // verus!
