//! The markup parser: a recursive-descent scanner that consumes a whole
//! document string and builds one tree of nodes.
//!
//! The grammar is stated first as total specification functions over the
//! character sequence; every executable parsing step is then proved to return
//! exactly what the corresponding specification function says. Each
//! specification function takes the position it starts from and yields the
//! parsed value together with the position it stops at, or the error that
//! aborts the whole parse.

use vstd::prelude::*;

use crate::dom::{AttrMap, Node, NodeView, views_of};
use crate::scan::{CharTest, Cursor, ParseError, scan_end, skip_ws};

verus! {

/// Does a comment opener `<!--` stand at `i`?
pub open spec fn at_comment_open(s: Seq<char>, i: int) -> bool {
    0 <= i && i + 4 <= s.len() && s[i] == '<' && s[i + 1] == '!' && s[i + 2] == '-' && s[i + 3]
        == '-'
}

/// Does a comment closer `-->` stand at `i`?
pub open spec fn at_comment_close(s: Seq<char>, i: int) -> bool {
    0 <= i && i + 3 <= s.len() && s[i] == '-' && s[i + 1] == '-' && s[i + 2] == '>'
}

/// Does a closing tag `</` stand at `i`?
pub open spec fn at_close_tag(s: Seq<char>, i: int) -> bool {
    0 <= i && i + 2 <= s.len() && s[i] == '<' && s[i + 1] == '/'
}

/// The position a sub-parse moved to, held to moving forward and staying in
/// bounds. Positions only ever move forward, so the guard changes nothing;
/// it makes termination of the recursion evident.
pub open spec fn step(i: int, p: int, n: int) -> int {
    if i < p && p <= n {
        p
    } else {
        i + 1
    }
}

/// The whitespace-skip position, held to moving forward and staying in
/// bounds, as `step` does.
pub open spec fn ws_step(s: Seq<char>, i: int) -> int {
    let j = skip_ws(s, i);
    if i <= j && j <= s.len() {
        j
    } else {
        i
    }
}

/// The position just past the first `-->` at or after `i`, or the error for
/// a comment that never closes.
pub open spec fn scan_comment_end(s: Seq<char>, i: int) -> Result<int, ParseError>
    decreases s.len() - i,
{
    if at_comment_close(s, i) {
        Ok(i + 3)
    } else if 0 <= i < s.len() {
        scan_comment_end(s, i + 1)
    } else {
        Err(ParseError::UnterminatedComment)
    }
}

/// A run of text up to the next markup: characters before the next `<`, with
/// every comment consumed and dropped, so that text around a comment stays
/// one single run.
pub open spec fn spec_parse_text(s: Seq<char>, i: int) -> Result<(Seq<char>, int), ParseError>
    decreases s.len() - i,
{
    let j0 = scan_end(s, i, CharTest::NotChar('<'));
    let j = if i <= j0 && j0 <= s.len() {
        j0
    } else {
        i
    };
    if at_comment_open(s, j) {
        match scan_comment_end(s, j + 4) {
            Ok(k) => match spec_parse_text(s, step(i, k, s.len() as int)) {
                Ok((rest, p)) => Ok((s.subrange(i, j) + rest, p)),
                Err(e) => Err(e),
            },
            Err(e) => Err(e),
        }
    } else {
        Ok((s.subrange(i, j), j))
    }
}

/// A quoted attribute value: an opening quote (`"` or `'`), the characters up
/// to the matching quote, and the closing quote.
pub open spec fn spec_parse_attr_value(s: Seq<char>, i: int) -> Result<
    (Seq<char>, int),
    ParseError,
> {
    if !(0 <= i < s.len() as int) {
        Err(ParseError::UnterminatedTag)
    } else if s[i] != '"' && s[i] != '\'' {
        Err(ParseError::UnexpectedCharacter)
    } else {
        let j = scan_end(s, i + 1, CharTest::NotChar(s[i]));
        if j >= s.len() {
            Err(ParseError::UnterminatedQuotedValue)
        } else {
            Ok((s.subrange(i + 1, j), j + 1))
        }
    }
}

/// One `name=value` attribute pair.
pub open spec fn spec_parse_attr(s: Seq<char>, i: int) -> Result<
    ((Seq<char>, Seq<char>), int),
    ParseError,
> {
    let j = scan_end(s, i, CharTest::TagName);
    if !(0 <= j < s.len() as int) {
        Err(ParseError::UnterminatedTag)
    } else if s[j] != '=' {
        Err(ParseError::UnexpectedCharacter)
    } else {
        match spec_parse_attr_value(s, j + 1) {
            Ok((v, p)) => Ok(((s.subrange(i, j), v), p)),
            Err(e) => Err(e),
        }
    }
}

/// The attribute pairs before the `>` of an opening tag, added to `m` in
/// order, a later pair overriding an earlier one with the same name. Stops
/// at the `>` without consuming it.
pub open spec fn spec_parse_attributes(
    s: Seq<char>,
    i: int,
    m: Map<Seq<char>, Seq<char>>,
) -> Result<(Map<Seq<char>, Seq<char>>, int), ParseError>
    decreases s.len() - i,
{
    let j = ws_step(s, i);
    if j >= s.len() {
        Err(ParseError::UnterminatedTag)
    } else if s[j] == '>' {
        Ok((m, j))
    } else {
        match spec_parse_attr(s, j) {
            Ok(((k, v), p)) => spec_parse_attributes(s, step(j, p, s.len() as int), m.insert(k, v)),
            Err(e) => Err(e),
        }
    }
}

/// An element: `<`, tag name, attributes, `>`, the children, and a closing
/// tag whose name must match the opening one. Defined for a position whose
/// character is `<`.
pub open spec fn spec_parse_element(s: Seq<char>, i: int) -> Result<(NodeView, int), ParseError>
    decreases s.len() - i, 0int,
{
    let t0 = scan_end(s, i + 1, CharTest::TagName);
    let t = if i + 1 <= t0 && t0 <= s.len() {
        t0
    } else {
        i + 1
    };
    let tag = s.subrange(i + 1, t);
    match spec_parse_attributes(s, t, Map::empty()) {
        Err(e) => Err(e),
        Ok((attrs, p2)) => match spec_parse_nodes(s, step(i, p2 + 1, s.len() as int)) {
            Err(e) => Err(e),
            Ok((kids, p3)) => {
                if !at_close_tag(s, p3) {
                    Err(ParseError::UnterminatedTag)
                } else {
                    let e0 = scan_end(s, p3 + 2, CharTest::TagName);
                    let e1 = if p3 + 2 <= e0 && e0 <= s.len() {
                        e0
                    } else {
                        p3 + 2
                    };
                    if s.subrange(p3 + 2, e1) != tag {
                        Err(ParseError::ClosingTagMismatch)
                    } else if e1 >= s.len() {
                        Err(ParseError::UnterminatedTag)
                    } else if s[e1] != '>' {
                        Err(ParseError::UnexpectedCharacter)
                    } else {
                        Ok((NodeView::Element { tag, attrs, children: kids }, e1 + 1))
                    }
                }
            },
        },
    }
}

/// One construct at `i`: a comment yields no node, a closing tag yields no
/// node and stays put, `<` starts an element, anything else starts a text
/// run. At the end of the input there is nothing to dispatch on.
pub open spec fn spec_parse_node(s: Seq<char>, i: int) -> Result<
    (Option<NodeView>, int),
    ParseError,
>
    decreases s.len() - i, 1int,
{
    if at_comment_open(s, i) {
        match scan_comment_end(s, i + 4) {
            Ok(k) => Ok((None, k)),
            Err(e) => Err(e),
        }
    } else if at_close_tag(s, i) {
        Ok((None, i))
    } else if !(0 <= i < s.len() as int) {
        Err(ParseError::UnterminatedTag)
    } else if s[i] == '<' {
        match spec_parse_element(s, i) {
            Ok((n, p)) => Ok((Some(n), p)),
            Err(e) => Err(e),
        }
    } else {
        match spec_parse_text(s, i) {
            Ok((c, p)) => Ok((Some(NodeView::Text { content: c }), p)),
            Err(e) => Err(e),
        }
    }
}

/// The node sequence from `i` on: whitespace between constructs is skipped,
/// comments are dropped, and the sequence ends at the end of the input or
/// before a closing tag.
pub open spec fn spec_parse_nodes(s: Seq<char>, i: int) -> Result<(Seq<NodeView>, int), ParseError>
    decreases s.len() - i, 2int,
{
    let j = ws_step(s, i);
    if at_comment_open(s, j) {
        match scan_comment_end(s, j + 4) {
            Ok(k) => spec_parse_nodes(s, step(j, k, s.len() as int)),
            Err(e) => Err(e),
        }
    } else if j >= s.len() || at_close_tag(s, j) {
        Ok((Seq::empty(), j))
    } else {
        match spec_parse_node(s, j) {
            Err(e) => Err(e),
            Ok((opt, p)) => match spec_parse_nodes(s, step(j, p, s.len() as int)) {
                Err(e) => Err(e),
                Ok((rest, q)) => match opt {
                    Some(n) => Ok((seq![n] + rest, q)),
                    None => Ok((rest, q)),
                },
            },
        }
    }
}

/// A whole document: its top-level node sequence; exactly one top-level
/// construct is the root itself, any other count is wrapped in a synthesized
/// `html` element.
pub open spec fn spec_parse_doc(s: Seq<char>) -> Result<NodeView, ParseError> {
    match spec_parse_nodes(s, 0) {
        Err(e) => Err(e),
        Ok((kids, _p)) => if kids.len() == 1 {
            Ok(kids[0])
        } else {
            Ok(NodeView::Element { tag: "html"@, attrs: Map::empty(), children: kids })
        },
    }
}

/// A document with exactly one top-level construct parses to that construct
/// itself, not to a synthesized root.
pub proof fn lemma_single_root(s: Seq<char>, kids: Seq<NodeView>, p: int)
    requires
        spec_parse_nodes(s, 0) == Ok::<(Seq<NodeView>, int), ParseError>((kids, p)),
        kids.len() == 1,
    ensures
        spec_parse_doc(s) == Ok::<NodeView, ParseError>(kids[0]),
{
}

/// A document with zero or several top-level constructs parses to a
/// synthesized `html` element holding them as its children.
pub proof fn lemma_synthesized_root(s: Seq<char>, kids: Seq<NodeView>, p: int)
    requires
        spec_parse_nodes(s, 0) == Ok::<(Seq<NodeView>, int), ParseError>((kids, p)),
        kids.len() != 1,
    ensures
        spec_parse_doc(s) == Ok::<NodeView, ParseError>(
            NodeView::Element { tag: "html"@, attrs: Map::empty(), children: kids },
        ),
{
}

/// Parsing is a pure function of the input characters: the same input always
/// yields the same tree or the same error. Together with `Html::parse`'s
/// contract, two calls on equal strings return structurally equal results.
pub proof fn lemma_parse_pure(s1: Seq<char>, s2: Seq<char>)
    requires
        s1 == s2,
    ensures
        spec_parse_doc(s1) == spec_parse_doc(s2),
{
}

/// The view of an optional node.
pub open spec fn view_opt(o: Option<Node>) -> Option<NodeView> {
    match o {
        Some(n) => Some(n@),
        None => None,
    }
}

/// The markup parser: the document text and the scan position.
pub struct Html {
    pub c: Cursor,
}

impl Html {
    /// The document as a sequence of characters.
    pub open spec fn text(&self) -> Seq<char> {
        self.c.text()
    }

    /// The scan position.
    pub open spec fn at(&self) -> int {
        self.c.at()
    }

    /// The position is in bounds.
    pub open spec fn wf(&self) -> bool {
        self.c.wf()
    }

    /// Does a comment opener stand at the position?
    fn sees_comment_open(&self) -> (b: bool)
        requires
            self.wf(),
        ensures
            b == at_comment_open(self.text(), self.at()),
    {
        let n = self.c.len();
        if n - self.c.pos >= 4 {
            self.c.char_at(self.c.pos) == '<' && self.c.char_at(self.c.pos + 1) == '!'
                && self.c.char_at(self.c.pos + 2) == '-' && self.c.char_at(self.c.pos + 3) == '-'
        } else {
            false
        }
    }

    /// Does a comment closer stand at the position?
    fn sees_comment_close(&self) -> (b: bool)
        requires
            self.wf(),
        ensures
            b == at_comment_close(self.text(), self.at()),
    {
        let n = self.c.len();
        if n - self.c.pos >= 3 {
            self.c.char_at(self.c.pos) == '-' && self.c.char_at(self.c.pos + 1) == '-'
                && self.c.char_at(self.c.pos + 2) == '>'
        } else {
            false
        }
    }

    /// Does a closing tag stand at the position?
    fn sees_close_tag(&self) -> (b: bool)
        requires
            self.wf(),
        ensures
            b == at_close_tag(self.text(), self.at()),
    {
        let n = self.c.len();
        if n - self.c.pos >= 2 {
            self.c.char_at(self.c.pos) == '<' && self.c.char_at(self.c.pos + 1) == '/'
        } else {
            false
        }
    }

    /// Consume one comment: the `<!--` at the position, everything up to the
    /// first `-->`, and that closer.
    #[verifier::loop_isolation(false)]
    fn parse_comment(&mut self) -> (r: Result<(), ParseError>)
        requires
            old(self).wf(),
            at_comment_open(old(self).text(), old(self).at()),
        ensures
            final(self).wf(),
            final(self).text() == old(self).text(),
            final(self).at() > old(self).at(),
            match r {
                Ok(_) => scan_comment_end(old(self).text(), old(self).at() + 4) == Ok::<
                    int,
                    ParseError,
                >(final(self).at()),
                Err(e) => scan_comment_end(old(self).text(), old(self).at() + 4) == Err::<
                    int,
                    ParseError,
                >(e),
            },
    {
        let ghost s = self.text();
        let _c0 = self.c.consume_char();
        let _c1 = self.c.consume_char();
        let _c2 = self.c.consume_char();
        let _c3 = self.c.consume_char();
        let ghost start = self.at();
        loop
            invariant
                self.wf(),
                self.text() == s,
                start <= self.at() <= s.len(),
                scan_comment_end(s, start) == scan_comment_end(s, self.at()),
            decreases s.len() - self.at(),
        {
            if self.sees_comment_close() {
                let _d0 = self.c.consume_char();
                let _d1 = self.c.consume_char();
                let _d2 = self.c.consume_char();
                return Ok(());
            }
            if self.c.eof() {
                return Err(ParseError::UnterminatedComment);
            }
            let _d = self.c.consume_char();
        }
    }

    /// Consume one text run: the characters before the next markup, with
    /// every comment inside removed and the surrounding text joined.
    #[verifier::loop_isolation(false)]
    fn parse_text(&mut self) -> (r: Result<Node, ParseError>)
        requires
            old(self).wf(),
        ensures
            final(self).wf(),
            final(self).text() == old(self).text(),
            final(self).at() >= old(self).at(),
            old(self).at() < old(self).text().len() && old(self).text()[old(self).at()] != '<'
                ==> final(self).at() > old(self).at(),
            match r {
                Ok(n) => n.wf() && (n@ matches NodeView::Text { content } && spec_parse_text(
                    old(self).text(),
                    old(self).at(),
                ) == Ok::<(Seq<char>, int), ParseError>((content, final(self).at()))),
                Err(e) => spec_parse_text(old(self).text(), old(self).at()) == Err::<
                    (Seq<char>, int),
                    ParseError,
                >(e),
            },
    {
        let ghost s = self.text();
        let ghost i0 = self.at();
        let mut data = String::new();
        loop
            invariant
                self.wf(),
                self.text() == s,
                i0 <= self.at() <= s.len(),
                forall|c: Seq<char>, p: int|
                    spec_parse_text(s, self.at()) == Ok::<(Seq<char>, int), ParseError>((c, p))
                        ==> spec_parse_text(s, i0) == Ok::<(Seq<char>, int), ParseError>(
                        (data@ + c, p),
                    ),
                forall|e: ParseError|
                    spec_parse_text(s, self.at()) == Err::<(Seq<char>, int), ParseError>(e)
                        ==> spec_parse_text(s, i0) == Err::<(Seq<char>, int), ParseError>(e),
            decreases s.len() - self.at(),
        {
            let ghost cur = self.at();
            let ghost data0 = data@;
            let part = self.c.consume_while(CharTest::NotChar('<'));
            data.append(part.as_str());
            let ghost j = self.at();
            if self.sees_comment_open() {
                match self.parse_comment() {
                    Ok(_) => {
                        proof {
                            let k = self.at();
                            assert(step(cur, k, s.len() as int) == k);
                            assert forall|c: Seq<char>, p: int|
                                spec_parse_text(s, k) == Ok::<(Seq<char>, int), ParseError>(
                                    (c, p),
                                ) implies spec_parse_text(s, i0) == Ok::<
                                (Seq<char>, int),
                                ParseError,
                            >((data@ + c, p)) by {
                                assert(spec_parse_text(s, cur) == Ok::<
                                    (Seq<char>, int),
                                    ParseError,
                                >((s.subrange(cur, j) + c, p)));
                                assert(data@ + c =~= data0 + (s.subrange(cur, j) + c));
                            }
                        }
                    },
                    Err(e) => {
                        proof {
                            assert(spec_parse_text(s, cur) == Err::<
                                (Seq<char>, int),
                                ParseError,
                            >(e));
                        }
                        return Err(e);
                    },
                }
            } else {
                proof {
                    assert(spec_parse_text(s, cur) == Ok::<(Seq<char>, int), ParseError>(
                        (s.subrange(cur, j), j),
                    ));
                    assert(data@ =~= data0 + s.subrange(cur, j));
                    if i0 < s.len() && s[i0] != '<' && cur == i0 {
                        crate::scan::lemma_scan_end(s, i0, CharTest::NotChar('<'));
                    }
                }
                let n = Node::new_text(data);
                return Ok(n);
            }
        }
    }

    /// Consume one quoted attribute value.
    fn parse_attr_value(&mut self) -> (r: Result<String, ParseError>)
        requires
            old(self).wf(),
        ensures
            final(self).wf(),
            final(self).text() == old(self).text(),
            final(self).at() >= old(self).at(),
            match r {
                Ok(v) => spec_parse_attr_value(old(self).text(), old(self).at()) == Ok::<
                    (Seq<char>, int),
                    ParseError,
                >((v@, final(self).at())) && final(self).at() > old(self).at(),
                Err(e) => spec_parse_attr_value(old(self).text(), old(self).at()) == Err::<
                    (Seq<char>, int),
                    ParseError,
                >(e),
            },
    {
        if self.c.eof() {
            return Err(ParseError::UnterminatedTag);
        }
        let quote = self.c.consume_char();
        if quote != '"' && quote != '\'' {
            return Err(ParseError::UnexpectedCharacter);
        }
        let value = self.c.consume_while(CharTest::NotChar(quote));
        if self.c.eof() {
            return Err(ParseError::UnterminatedQuotedValue);
        }
        let _q = self.c.consume_char();
        Ok(value)
    }

    /// Consume one `name=value` attribute pair.
    fn parse_attr(&mut self) -> (r: Result<(String, String), ParseError>)
        requires
            old(self).wf(),
        ensures
            final(self).wf(),
            final(self).text() == old(self).text(),
            final(self).at() >= old(self).at(),
            match r {
                Ok(kv) => spec_parse_attr(old(self).text(), old(self).at()) == Ok::<
                    ((Seq<char>, Seq<char>), int),
                    ParseError,
                >(((kv.0@, kv.1@), final(self).at())) && final(self).at() > old(self).at(),
                Err(e) => spec_parse_attr(old(self).text(), old(self).at()) == Err::<
                    ((Seq<char>, Seq<char>), int),
                    ParseError,
                >(e),
            },
    {
        let key = self.c.consume_while(CharTest::TagName);
        if self.c.eof() {
            return Err(ParseError::UnterminatedTag);
        }
        let eq = self.c.consume_char();
        if eq != '=' {
            return Err(ParseError::UnexpectedCharacter);
        }
        match self.parse_attr_value() {
            Ok(value) => Ok((key, value)),
            Err(e) => Err(e),
        }
    }

    /// Consume the attribute pairs of an opening tag, up to but not
    /// including its `>`.
    #[verifier::loop_isolation(false)]
    fn parse_attributes(&mut self) -> (r: Result<AttrMap, ParseError>)
        requires
            old(self).wf(),
        ensures
            final(self).wf(),
            final(self).text() == old(self).text(),
            final(self).at() >= old(self).at(),
            match r {
                Ok(m) => m.wf() && spec_parse_attributes(
                    old(self).text(),
                    old(self).at(),
                    Map::empty(),
                ) == Ok::<(Map<Seq<char>, Seq<char>>, int), ParseError>((m@, final(self).at()))
                    && final(self).at() < final(self).text().len()
                    && final(self).text()[final(self).at()] == '>',
                Err(e) => spec_parse_attributes(old(self).text(), old(self).at(), Map::empty())
                    == Err::<(Map<Seq<char>, Seq<char>>, int), ParseError>(e),
            },
    {
        let ghost s = self.text();
        let ghost i0 = self.at();
        let mut attributes = AttrMap::new();
        loop
            invariant
                self.wf(),
                self.text() == s,
                i0 <= self.at() <= s.len(),
                attributes.wf(),
                spec_parse_attributes(s, i0, Map::empty()) == spec_parse_attributes(
                    s,
                    self.at(),
                    attributes@,
                ),
            decreases s.len() - self.at(),
        {
            self.c.consume_whitespace();
            if self.c.eof() {
                return Err(ParseError::UnterminatedTag);
            }
            if self.c.next_char() == '>' {
                return Ok(attributes);
            }
            let ghost j = self.at();
            match self.parse_attr() {
                Ok((key, value)) => {
                    proof {
                        assert(step(j, self.at(), s.len() as int) == self.at());
                    }
                    attributes.insert(key, value);
                },
                Err(e) => {
                    return Err(e);
                },
            }
        }
    }

    /// Consume one element: opening tag, attributes, children, and the
    /// matching closing tag.
    fn parse_element(&mut self) -> (r: Result<Node, ParseError>)
        requires
            old(self).wf(),
            old(self).at() < old(self).text().len(),
            old(self).text()[old(self).at()] == '<',
        ensures
            final(self).wf(),
            final(self).text() == old(self).text(),
            final(self).at() > old(self).at(),
            match r {
                Ok(n) => n.wf() && spec_parse_element(old(self).text(), old(self).at()) == Ok::<
                    (NodeView, int),
                    ParseError,
                >((n@, final(self).at())),
                Err(e) => spec_parse_element(old(self).text(), old(self).at()) == Err::<
                    (NodeView, int),
                    ParseError,
                >(e),
            },
        decreases old(self).text().len() - old(self).at(), 0int,
    {
        let ghost s = self.text();
        let ghost i0 = self.at();
        let _lt = self.c.consume_char();
        let tag_name = self.c.consume_while(CharTest::TagName);
        let attrs = match self.parse_attributes() {
            Ok(m) => m,
            Err(e) => {
                return Err(e);
            },
        };
        let _gt = self.c.consume_char();
        proof {
            assert(step(i0, self.at(), s.len() as int) == self.at());
        }
        let children = match self.parse_nodes() {
            Ok(v) => v,
            Err(e) => {
                return Err(e);
            },
        };
        if !self.sees_close_tag() {
            return Err(ParseError::UnterminatedTag);
        }
        let _c1 = self.c.consume_char();
        let _c2 = self.c.consume_char();
        let close_name = self.c.consume_while(CharTest::TagName);
        if !crate::scan::str_eq(close_name.as_str(), tag_name.as_str()) {
            return Err(ParseError::ClosingTagMismatch);
        }
        if self.c.eof() {
            return Err(ParseError::UnterminatedTag);
        }
        let gt = self.c.consume_char();
        if gt != '>' {
            return Err(ParseError::UnexpectedCharacter);
        }
        let n = Node::new_element(tag_name, attrs, children);
        proof {
            assert(n@ matches NodeView::Element { children: c, .. } && c == views_of(
                n.children@,
            ));
        }
        Ok(n)
    }

    /// Consume one construct: a comment (no node), a closing tag (no node,
    /// nothing consumed), an element, or a text run.
    fn parse_node(&mut self) -> (r: Result<Option<Node>, ParseError>)
        requires
            old(self).wf(),
        ensures
            final(self).wf(),
            final(self).text() == old(self).text(),
            final(self).at() >= old(self).at(),
            match r {
                Ok(opt) => spec_parse_node(old(self).text(), old(self).at()) == Ok::<
                    (Option<NodeView>, int),
                    ParseError,
                >((view_opt(opt), final(self).at())) && (opt matches Some(n) ==> n.wf()) && (
                !at_close_tag(old(self).text(), old(self).at()) ==> final(self).at() > old(self).at()),
                Err(e) => spec_parse_node(old(self).text(), old(self).at()) == Err::<
                    (Option<NodeView>, int),
                    ParseError,
                >(e),
            },
        decreases old(self).text().len() - old(self).at(), 1int,
    {
        if self.sees_comment_open() {
            return match self.parse_comment() {
                Ok(_) => Ok(None),
                Err(e) => Err(e),
            };
        }
        if self.sees_close_tag() {
            return Ok(None);
        }
        if self.c.eof() {
            return Err(ParseError::UnterminatedTag);
        }
        if self.c.next_char() == '<' {
            match self.parse_element() {
                Ok(n) => Ok(Some(n)),
                Err(e) => Err(e),
            }
        } else {
            match self.parse_text() {
                Ok(n) => Ok(Some(n)),
                Err(e) => Err(e),
            }
        }
    }

    /// Consume the node sequence that runs to the end of the input or to a
    /// closing tag: whitespace between constructs is skipped and comments
    /// are dropped.
    fn parse_nodes(&mut self) -> (r: Result<Vec<Node>, ParseError>)
        requires
            old(self).wf(),
        ensures
            final(self).wf(),
            final(self).text() == old(self).text(),
            final(self).at() >= old(self).at(),
            match r {
                Ok(v) => (forall|i: int| 0 <= i < v@.len() ==> #[trigger] v@[i].wf())
                    && spec_parse_nodes(old(self).text(), old(self).at()) == Ok::<
                    (Seq<NodeView>, int),
                    ParseError,
                >((views_of(v@), final(self).at())),
                Err(e) => spec_parse_nodes(old(self).text(), old(self).at()) == Err::<
                    (Seq<NodeView>, int),
                    ParseError,
                >(e),
            },
        decreases old(self).text().len() - old(self).at(), 2int,
    {
        let ghost s = self.text();
        let ghost i0 = self.at();
        self.c.consume_whitespace();
        let ghost j = self.at();
        if self.sees_comment_open() {
            match self.parse_comment() {
                Ok(_) => {},
                Err(e) => {
                    return Err(e);
                },
            }
            proof {
                assert(step(j, self.at(), s.len() as int) == self.at());
            }
            return self.parse_nodes();
        }
        if self.c.eof() || self.sees_close_tag() {
            let v: Vec<Node> = Vec::new();
            proof {
                assert(views_of(v@) =~= Seq::<NodeView>::empty());
            }
            return Ok(v);
        }
        let opt = match self.parse_node() {
            Ok(o) => o,
            Err(e) => {
                return Err(e);
            },
        };
        proof {
            assert(step(j, self.at(), s.len() as int) == self.at());
        }
        let mut rest = match self.parse_nodes() {
            Ok(v) => v,
            Err(e) => {
                return Err(e);
            },
        };
        match opt {
            Some(n) => {
                let ghost r0 = rest@;
                rest.insert(0, n);
                proof {
                    assert(views_of(rest@) =~= seq![n@] + views_of(r0));
                }
            },
            None => {},
        }
        Ok(rest)
    }

    /// Parse a whole document and return its root node: the single top-level
    /// construct if there is exactly one, else a synthesized `html` element
    /// holding all top-level constructs.
    pub fn parse(source: String) -> (r: Result<Node, ParseError>)
        ensures
            match r {
                Ok(n) => n.wf() && spec_parse_doc(source@) == Ok::<NodeView, ParseError>(n@),
                Err(e) => spec_parse_doc(source@) == Err::<NodeView, ParseError>(e),
            },
    {
        let mut parser = Html { c: Cursor::new(source) };
        let mut nodes = match parser.parse_nodes() {
            Ok(v) => v,
            Err(e) => {
                return Err(e);
            },
        };
        if nodes.len() == 1 {
            let n = nodes.remove(0);
            Ok(n)
        } else {
            let ghost kids = views_of(nodes@);
            let n = Node::new_element("html".to_owned(), AttrMap::new(), nodes);
            proof {
                assert(n@ matches NodeView::Element { children: c, .. } && c == kids);
            }
            Ok(n)
        }
    }
}

} // verus!
