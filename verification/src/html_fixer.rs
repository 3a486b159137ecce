//! HTML structure repair.
//!
//! The fixer scans a document for tags (`<` followed by at least one
//! character other than `>`, up to the next `>`) and keeps a stack of the
//! elements it has opened.  A closing tag closes the innermost open element
//! of its name (closing first what is open inside it) and is dropped when no
//! such element is open; a `p` or another block element first closes the
//! open paragraph together with everything open inside it; and what is still
//! open at the end is closed.  Inserted closing tags go right after the text
//! they close, before its trailing whitespace.
//!
//! The whole transformation is stated by [`fixed_html`]; the laws at the end
//! of this file follow from it.

use vstd::prelude::*;
use crate::text::{
    chars_eq, chars_eq_str, chars_of, ends_with, ends_with_exec, is_ws, lemma_chars_deep_view,
    lemma_deep_view_push, lemma_skip_back_while, lemma_skip_while, ne_pred, non_ws_pred,
    push_chars, skip_back_while, skip_back_ws_exec, skip_non_ws_exec, skip_while, skip_ws_exec,
    starts_with, starts_with_exec, string_of, sub_chars, to_lowercase, trim_end_char,
    trim_end_char_exec, trim_start_char, trim_start_char_exec, unicode_lowercase, words, ws_pred,
};

verus! {

// ---------------------------------------------------------------------------
// Finding the tags: the regular expression `(<[^>]+>)`
// ---------------------------------------------------------------------------

/// The pattern that finds tags.
pub open spec fn tag_pattern() -> Seq<char> {
    "(<[^>]+>)"@
}

/// Where the match of `<[^>]+>` that starts at `p` ends (one past its `>`),
/// if one starts there: `s[p]` is `<`, `s[p + 1]` is not `>`, and a `>`
/// follows somewhere after it.
pub open spec fn tag_end_at(s: Seq<char>, p: int) -> Option<int> {
    if 0 <= p && p + 1 < s.len() && s[p] == '<' && s[p + 1] != '>' {
        let j = skip_while(s, p + 1, ne_pred('>'));
        if j < s.len() {
            Some(j + 1)
        } else {
            None
        }
    } else {
        None
    }
}

/// The spans `[start, end)` of the successive non-overlapping leftmost
/// matches of `<[^>]+>` in `s[p..]`.
pub open spec fn tag_spans_from(s: Seq<char>, p: int) -> Seq<(int, int)>
    decreases s.len() - p,
{
    if p < 0 || p >= s.len() {
        seq![]
    } else {
        match tag_end_at(s, p) {
            Some(e) => {
                proof {
                    lemma_skip_while(s, p + 1, ne_pred('>'));
                }
                seq![(p, e)] + tag_spans_from(s, e)
            },
            None => tag_spans_from(s, p + 1),
        }
    }
}

/// The spans of all tags of `s`.
pub open spec fn tag_spans(s: Seq<char>) -> Seq<(int, int)> {
    tag_spans_from(s, 0)
}

/// The tags of `s`, in order.
pub open spec fn tag_texts(s: Seq<char>) -> Seq<Seq<char>> {
    tag_spans(s).map_values(|sp: (int, int)| s.subrange(sp.0, sp.1))
}

/// The text around the tags of `s`: one more piece than there are tags.
pub open spec fn gap_texts(s: Seq<char>) -> Seq<Seq<char>> {
    let sp = tag_spans(s);
    let n = sp.len();
    Seq::new(
        (n + 1) as nat,
        |k: int|
            s.subrange(
                if k == 0 {
                    0
                } else {
                    sp[k - 1].1
                },
                if k == n {
                    s.len() as int
                } else {
                    sp[k].0
                },
            ),
    )
}

/// `Regex::find_iter`: every match of `pattern` in `haystack`, in order.
/// The contract holds for the tag pattern only, which it requires: the
/// matches are the successive leftmost non-overlapping matches of
/// `<[^>]+>`, as the regex crate documents `find_iter`.
#[verifier::external_body]
fn regex_find_all(pattern: &str, haystack: &str) -> (res: Vec<String>)
    requires
        pattern@ == tag_pattern(),
    ensures
        res.deep_view() == tag_texts(haystack@),
{
    regex::Regex::new(pattern).unwrap().find_iter(haystack).map(|m| m.as_str().to_string()).collect()
}

/// `Regex::split`: the parts of `haystack` that the matches of `pattern`
/// delimit, in order.  The contract holds for the tag pattern only, which
/// it requires: the parts are the text before, between and after the
/// matches of `<[^>]+>`.
#[verifier::external_body]
fn regex_split(pattern: &str, haystack: &str) -> (res: Vec<String>)
    requires
        pattern@ == tag_pattern(),
    ensures
        res.deep_view() == gap_texts(haystack@),
{
    regex::Regex::new(pattern).unwrap().split(haystack).map(|p| p.to_string()).collect()
}

/// The characters of each string.
fn chars_of_all(v: &Vec<String>) -> (res: Vec<Vec<char>>)
    ensures
        res.deep_view() == v.deep_view(),
{
    let mut res: Vec<Vec<char>> = Vec::new();
    let mut k: usize = 0;
    while k < v.len()
        invariant
            k <= v@.len(),
            res.deep_view() == v.deep_view().take(k as int),
        decreases v@.len() - k,
    {
        let cs = chars_of(v[k].as_str());
        let ghost before = res;
        res.push(cs);
        proof {
            lemma_deep_view_push(before, res, cs);
            assert(v.deep_view().take(k + 1) =~= v.deep_view().take(k as int).push(v@[k as int]@));
        }
        k = k + 1;
    }
    assert(v.deep_view().take(v@.len() as int) =~= v.deep_view());
    res
}

// ---------------------------------------------------------------------------
// Element names
// ---------------------------------------------------------------------------

/// Block-level elements: the paragraph open around one of them is closed
/// first.
pub open spec fn block_names() -> Seq<Seq<char>> {
    seq![
        "div"@, "p"@, "section"@, "article"@, "nav"@, "aside"@, "header"@, "footer"@,
        "main"@, "blockquote"@, "pre"@, "ul"@, "ol"@, "li"@, "dl"@, "dt"@, "dd"@,
        "table"@, "thead"@, "tbody"@, "tfoot"@, "tr"@, "td"@, "th"@, "form"@,
        "fieldset"@, "legend"@, "figure"@, "figcaption"@, "h1"@, "h2"@, "h3"@,
        "h4"@, "h5"@, "h6"@,
    ]
}

/// Void elements: they are never pushed on the stack of open tags.
pub open spec fn self_closing_names() -> Seq<Seq<char>> {
    seq![
        "img"@, "br"@, "hr"@, "input"@, "meta"@, "link"@, "area"@, "base"@,
        "col"@, "embed"@, "source"@, "track"@, "wbr"@,
    ]
}

/// The name `p`.
pub open spec fn p_name() -> Seq<char> {
    seq!['p']
}

/// A closing tag: starts with `</` and ends with `>`.
pub open spec fn is_closing_tag(t: Seq<char>) -> bool {
    starts_with(t, seq!['<', '/']) && ends_with(t, seq!['>'])
}

/// An opening tag: starts with `<` but not with `</` or `<!`, and does not
/// end with `/>`.
pub open spec fn is_opening_tag(t: Seq<char>) -> bool {
    starts_with(t, seq!['<']) && !starts_with(t, seq!['<', '/']) && !starts_with(
        t,
        seq!['<', '!'],
    ) && !ends_with(t, seq!['/', '>'])
}

/// The name of a tag: leading `<` and then leading `/` trimmed, trailing
/// `>` and then trailing `/` trimmed, the first whitespace-separated word of
/// what remains (or all of it when there is no word), lowercased.  A closing
/// tag is thus named by the element it closes.
pub open spec fn tag_name(t: Seq<char>) -> Seq<char> {
    let inner = trim_end_char(
        trim_end_char(trim_start_char(trim_start_char(t, '<'), '/'), '>'),
        '/',
    );
    let w = words(inner);
    unicode_lowercase(
        if w.len() > 0 {
            w[0]
        } else {
            inner
        },
    )
}

/// The name under which an opening tag's element goes on the stack.
pub open spec fn opened_name(tag: Seq<char>) -> Seq<char> {
    unicode_lowercase(tag_name(tag))
}

/// Whether an opening tag starts a `p` or another block element: such an
/// element is never placed inside an open paragraph.
pub open spec fn opens_block(tag: Seq<char>) -> bool {
    opened_name(tag) == p_name() || block_names().contains(unicode_lowercase(opened_name(tag)))
}

/// Whether an opening tag's element is void: it is never put on the stack.
pub open spec fn is_void(tag: Seq<char>) -> bool {
    self_closing_names().contains(unicode_lowercase(opened_name(tag)))
}

// ---------------------------------------------------------------------------
// The stack of open elements and one step of the fixer
// ---------------------------------------------------------------------------

/// The closing tag `</name>`.
pub open spec fn close_tag(name: Seq<char>) -> Seq<char> {
    seq!['<', '/'] + name + seq!['>']
}

/// Closing tags for `names`, last one first: what popping them all off a
/// stack emits.
pub open spec fn closings(names: Seq<Seq<char>>) -> Seq<char>
    decreases names.len(),
{
    if names.len() == 0 {
        seq![]
    } else {
        closings(names.drop_first()) + close_tag(names[0])
    }
}

/// The position of the last occurrence of `x` in `st`.
pub open spec fn rposition(st: Seq<Seq<char>>, x: Seq<char>) -> Option<int>
    decreases st.len(),
{
    if st.len() == 0 {
        None
    } else if st.last() == x {
        Some(st.len() - 1)
    } else {
        rposition(st.drop_last(), x)
    }
}

/// The open elements (bottom first) that processing `tag` with the stack
/// `st` closes by inserted closing tags: for a closing tag, those open inside
/// the innermost element of its name; for an opening `p` or block element,
/// the innermost open `p` and those open inside it.
pub open spec fn inserted_names(st: Seq<Seq<char>>, tag: Seq<char>) -> Seq<Seq<char>> {
    if is_closing_tag(tag) {
        match rposition(st, tag_name(tag)) {
            Some(pos) => st.skip(pos + 1),
            None => seq![],
        }
    } else if is_opening_tag(tag) && opens_block(tag) {
        match rposition(st, p_name()) {
            Some(pos) => st.skip(pos),
            None => seq![],
        }
    } else {
        seq![]
    }
}

/// Processing one tag with the stack `st`: the closing tags inserted before
/// it, the tag text kept in the output, and the new stack.
///
/// - A closing tag closes the innermost open element of its name: the
///   elements open inside that one get inserted closing tags, and the tag
///   itself closes it.  A closing tag that matches no open element is
///   dropped (its kept text is empty).
/// - An opening `p` or block element first closes the innermost open `p`
///   together with every element open inside it; then the new element is
///   opened unless it is void.
/// - Anything else (comments, `.../>` tags) is kept and changes nothing.
pub open spec fn step(st: Seq<Seq<char>>, tag: Seq<char>) -> (
    Seq<char>,
    Seq<char>,
    Seq<Seq<char>>,
) {
    if is_closing_tag(tag) {
        match rposition(st, tag_name(tag)) {
            Some(pos) => (closings(st.skip(pos + 1)), tag, st.take(pos)),
            None => (seq![], seq![], st),
        }
    } else if is_opening_tag(tag) {
        let (c, s1) = if opens_block(tag) {
            match rposition(st, p_name()) {
                Some(pos) => (closings(st.skip(pos)), st.take(pos)),
                None => (Seq::<char>::empty(), st),
            }
        } else {
            (Seq::<char>::empty(), st)
        };
        (
            c,
            tag,
            if is_void(tag) {
                s1
            } else {
                s1.push(opened_name(tag))
            },
        )
    } else {
        (seq![], tag, st)
    }
}

/// Where the trailing whitespace of a text piece begins.
pub open spec fn lead_len(piece: Seq<char>) -> int {
    skip_back_while(piece, piece.len() as int, ws_pred())
}

/// A text piece with inserted closing tags placed before its trailing
/// whitespace, right after the text they close.
pub open spec fn with_closings(piece: Seq<char>, closing: Seq<char>) -> Seq<char> {
    piece.take(lead_len(piece)) + closing + piece.skip(lead_len(piece))
}

/// The output and the stack after the text pieces and tags before tag `k`:
/// each text piece with the closing tags inserted for the next tag, then
/// that tag's kept text.
pub open spec fn run(pieces: Seq<Seq<char>>, tags: Seq<Seq<char>>, k: int) -> (
    Seq<char>,
    Seq<Seq<char>>,
)
    decreases k,
{
    if k <= 0 {
        (seq![], seq![])
    } else {
        let (o, st) = run(pieces, tags, k - 1);
        let (c, t, st2) = step(st, tags[k - 1]);
        (o + with_closings(pieces[k - 1], c) + t, st2)
    }
}

/// The repaired document for the given text pieces and tags: what is still
/// open at the end is closed after the last text.
pub open spec fn fix_output(pieces: Seq<Seq<char>>, tags: Seq<Seq<char>>) -> Seq<char> {
    let n = tags.len() as int;
    let (o, st) = run(pieces, tags, n);
    o + with_closings(pieces[n], closings(st))
}

/// The repaired document for `html`.
pub open spec fn fixed_html(html: Seq<char>) -> Seq<char> {
    fix_output(gap_texts(html), tag_texts(html))
}

// ---------------------------------------------------------------------------
// The fixer
// ---------------------------------------------------------------------------

/// Repairs malformed HTML: closes unclosed tags, keeps paragraphs from
/// nesting, moves block elements out of paragraphs, and drops closing tags
/// that match no open element.
pub struct HtmlFixer {
    block_elements: Vec<&'static str>,
    self_closing_elements: Vec<&'static str>,
}

/// The names in a list of string slices.
pub open spec fn names_of(v: Seq<&'static str>) -> Seq<Seq<char>> {
    v.map_values(|e: &'static str| e@)
}

impl HtmlFixer {
    /// The fixer knows exactly the block and void elements listed in
    /// [`block_names`] and [`self_closing_names`].
    #[verifier::type_invariant]
    spec fn well_formed(self) -> bool {
        &&& names_of(self.block_elements@) == block_names()
        &&& names_of(self.self_closing_elements@) == self_closing_names()
    }

    /// The block elements the fixer knows.
    pub closed spec fn known_block_elements(self) -> Seq<Seq<char>> {
        names_of(self.block_elements@)
    }

    /// The void elements the fixer knows.
    pub closed spec fn known_void_elements(self) -> Seq<Seq<char>> {
        names_of(self.self_closing_elements@)
    }

    /// Creates a fixer with the standard lists of block and void elements.
    pub fn new() -> (res: Self)
        ensures
            res.known_block_elements() == block_names(),
            res.known_void_elements() == self_closing_names(),
    {
        let block_elements: Vec<&'static str> = vec![
            "div", "p", "section", "article", "nav", "aside", "header", "footer",
            "main", "blockquote", "pre", "ul", "ol", "li", "dl", "dt", "dd",
            "table", "thead", "tbody", "tfoot", "tr", "td", "th", "form",
            "fieldset", "legend", "figure", "figcaption", "h1", "h2", "h3",
            "h4", "h5", "h6",
        ];
        let self_closing_elements: Vec<&'static str> = vec![
            "img", "br", "hr", "input", "meta", "link", "area", "base",
            "col", "embed", "source", "track", "wbr",
        ];
        assert(names_of(block_elements@) =~= block_names());
        assert(names_of(self_closing_elements@) =~= self_closing_names());
        HtmlFixer { block_elements, self_closing_elements }
    }

    /// Whether `tag` starts an element (see [`is_opening_tag`]).
    fn is_opening_tag(&self, tag: &[char]) -> (res: bool)
        ensures
            res == is_opening_tag(tag@),
    {
        let lt = ['<'];
        let lt_slash = ['<', '/'];
        let lt_bang = ['<', '!'];
        let slash_gt = ['/', '>'];
        assert(lt@ == seq!['<']);
        assert(lt_slash@ == seq!['<', '/']);
        assert(lt_bang@ == seq!['<', '!']);
        assert(slash_gt@ == seq!['/', '>']);
        starts_with_exec(tag, &lt) && !starts_with_exec(tag, &lt_slash) && !starts_with_exec(
            tag,
            &lt_bang,
        ) && !ends_with_exec(tag, &slash_gt)
    }

    /// Whether `tag` ends an element (see [`is_closing_tag`]).
    fn is_closing_tag(&self, tag: &[char]) -> (res: bool)
        ensures
            res == is_closing_tag(tag@),
    {
        let lt_slash = ['<', '/'];
        let gt = ['>'];
        assert(lt_slash@ == seq!['<', '/']);
        assert(gt@ == seq!['>']);
        starts_with_exec(tag, &lt_slash) && ends_with_exec(tag, &gt)
    }

    /// The name of `tag` (see [`tag_name`]).
    fn extract_tag_name(&self, tag: &[char]) -> (res: Vec<char>)
        ensures
            res@ == tag_name(tag@),
    {
        let t0 = trim_start_char_exec(tag, '<');
        let t1 = trim_start_char_exec(t0.as_slice(), '/');
        let t2 = trim_end_char_exec(t1.as_slice(), '>');
        let inner = trim_end_char_exec(t2.as_slice(), '/');
        let a = skip_ws_exec(inner.as_slice(), 0);
        proof {
            lemma_skip_while(inner@, 0, ws_pred());
        }
        if a >= inner.len() {
            assert(words(inner@) =~= Seq::<Seq<char>>::empty());
            to_lowercase(inner.as_slice())
        } else {
            let b = skip_non_ws_exec(inner.as_slice(), a);
            proof {
                lemma_skip_while(inner@, a as int, non_ws_pred());
            }
            let first = sub_chars(inner.as_slice(), a, b);
            assert(words(inner@)[0] == first@);
            to_lowercase(first.as_slice())
        }
    }

    /// Whether the lowercase form of `tag` is a block element.
    fn is_block_element(&self, tag: &[char]) -> (res: bool)
        ensures
            res == block_names().contains(unicode_lowercase(tag@)),
    {
        proof {
            use_type_invariant(self);
        }
        let lower = to_lowercase(tag);
        member_of(&self.block_elements, lower.as_slice())
    }

    /// Whether the lowercase form of `tag` is a void element.
    fn is_self_closing(&self, tag: &[char]) -> (res: bool)
        ensures
            res == self_closing_names().contains(unicode_lowercase(tag@)),
    {
        proof {
            use_type_invariant(self);
        }
        let lower = to_lowercase(tag);
        member_of(&self.self_closing_elements, lower.as_slice())
    }
}

/// Whether `name` is one of `list`.
fn member_of(list: &Vec<&'static str>, name: &[char]) -> (res: bool)
    ensures
        res == names_of(list@).contains(name@),
{
    let mut k: usize = 0;
    while k < list.len()
        invariant
            k <= list@.len(),
            forall|j: int| 0 <= j < k ==> list@[j]@ != name@,
        decreases list@.len() - k,
    {
        if chars_eq_str(name, list[k]) {
            assert(names_of(list@)[k as int] == name@);
            return true;
        }
        k = k + 1;
    }
    assert forall|j: int| 0 <= j < names_of(list@).len() implies names_of(list@)[j] != name@ by {}
    false
}

// ---------------------------------------------------------------------------
// Stack operations
// ---------------------------------------------------------------------------

/// Taking a prefix of a vector of character vectors takes a prefix of its
/// deep view.
proof fn lemma_deep_view_take(before: Vec<Vec<char>>, after: Vec<Vec<char>>, k: int)
    requires
        0 <= k <= before@.len(),
        after@ == before@.take(k),
    ensures
        after.deep_view() == before.deep_view().take(k),
{
    assert(after.deep_view() =~= before.deep_view().take(k));
}

/// Entries above `i` that differ from `x` do not change `rposition`.
proof fn lemma_rposition_take(st: Seq<Seq<char>>, x: Seq<char>, i: int)
    requires
        0 <= i <= st.len(),
        forall|j: int| i <= j < st.len() ==> st[j] != x,
    ensures
        rposition(st, x) == rposition(st.take(i), x),
    decreases st.len(),
{
    if st.len() > i {
        assert(st.last() != x);
        lemma_rposition_take(st.drop_last(), x, i);
        assert(st.drop_last().take(i) =~= st.take(i));
    } else {
        assert(st.take(i) =~= st);
    }
}

/// What `rposition` returns.
proof fn lemma_rposition(st: Seq<Seq<char>>, x: Seq<char>)
    ensures
        rposition(st, x) matches Some(p) ==> 0 <= p < st.len() && st[p] == x,
    decreases st.len(),
{
    if st.len() > 0 && st.last() != x {
        lemma_rposition(st.drop_last(), x);
    }
}

/// The position of the last entry of `stack` equal to `x`.
fn rposition_exec(stack: &Vec<Vec<char>>, x: &[char]) -> (res: Option<usize>)
    ensures
        match res {
            Some(p) => rposition(stack.deep_view(), x@) == Some(p as int),
            None => rposition(stack.deep_view(), x@) is None,
        },
{
    let ghost st = stack.deep_view();
    let mut i: usize = stack.len();
    while i > 0
        invariant
            i <= stack@.len(),
            st == stack.deep_view(),
            forall|j: int| i <= j < st.len() ==> st[j] != x@,
        decreases i,
    {
        proof {
            lemma_chars_deep_view(stack@[i - 1]);
        }
        if chars_eq(stack[i - 1].as_slice(), x) {
            proof {
                lemma_rposition_take(st, x@, i as int);
                assert(st.take(i as int).last() == x@);
            }
            return Some(i - 1);
        }
        i = i - 1;
    }
    proof {
        lemma_rposition_take(st, x@, 0);
    }
    None
}

/// Closing tags for `names` with one more name below them.
proof fn lemma_closings_extend(st: Seq<Seq<char>>, l: int, m: int)
    requires
        0 < l <= m <= st.len(),
    ensures
        closings(st.subrange(l - 1, m)) == closings(st.subrange(l, m)) + close_tag(st[l - 1]),
{
    assert(st.subrange(l - 1, m).drop_first() =~= st.subrange(l, m));
}

/// Pops entries off `stack` until `pos` remain, emitting a closing tag for
/// each.
fn close_down(out: &mut Vec<char>, stack: &mut Vec<Vec<char>>, pos: usize)
    requires
        pos <= old(stack)@.len(),
    ensures
        final(out)@ == old(out)@ + closings(old(stack).deep_view().skip(pos as int)),
        final(stack).deep_view() == old(stack).deep_view().take(pos as int),
{
    let ghost st0 = stack.deep_view();
    let ghost out0 = out@;
    let ghost m = st0.len() as int;
    assert(st0.subrange(m, m) =~= Seq::<Seq<char>>::empty());
    assert(st0.take(m) =~= st0);
    while stack.len() > pos
        invariant
            pos <= stack@.len() <= m,
            m == st0.len(),
            stack.deep_view() == st0.take(stack@.len() as int),
            out@ == out0 + closings(st0.subrange(stack@.len() as int, m)),
        decreases stack@.len(),
    {
        let ghost l = stack@.len() as int;
        let ghost before = *stack;
        let top = stack.pop().unwrap();
        proof {
            lemma_deep_view_take(before, *stack, l - 1);
            assert(st0.take(l).take(l - 1) =~= st0.take(l - 1));
            lemma_chars_deep_view(top);
            assert(before.deep_view()[l - 1] == before@[l - 1].deep_view());
            assert(top@ == st0[l - 1]);
            lemma_closings_extend(st0, l, m);
        }
        let ghost out1 = out@;
        out.push('<');
        out.push('/');
        push_chars(out, top.as_slice());
        out.push('>');
        assert(out@ =~= out1 + close_tag(top@));
    }
    assert(st0.subrange(pos as int, m) =~= st0.skip(pos as int));
}

impl HtmlFixer {
    /// Processes the text piece before a tag and the tag itself: emits what
    /// [`run`] emits for them and updates the stack as [`step`] does.
    fn apply_tag(
        &self,
        out: &mut Vec<char>,
        stack: &mut Vec<Vec<char>>,
        piece: &[char],
        tag: &[char],
    )
        ensures
            final(out)@ == old(out)@ + with_closings(piece@, step(old(stack).deep_view(), tag@).0)
                + step(old(stack).deep_view(), tag@).1,
            final(stack).deep_view() == step(old(stack).deep_view(), tag@).2,
    {
        let ghost st = stack.deep_view();
        let ghost out0 = out@;
        let b = skip_back_ws_exec(piece, piece.len());
        proof {
            lemma_skip_back_while(piece@, piece@.len() as int, ws_pred());
        }
        let lead = sub_chars(piece, 0, b);
        let trail = sub_chars(piece, b, piece.len());
        assert(lead@ == piece@.take(lead_len(piece@)));
        assert(trail@ == piece@.skip(lead_len(piece@)));
        push_chars(out, lead.as_slice());
        let ghost out1 = out@;
        if self.is_closing_tag(tag) {
            let name = self.extract_tag_name(tag);
            match rposition_exec(stack, name.as_slice()) {
                Some(pos) => {
                    proof {
                        lemma_rposition(st, name@);
                        assert(stack.deep_view().len() == stack@.len());
                        assert(pos < stack@.len());
                    }
                    let slen = stack.len();
                    assert(pos < slen);
                    close_down(out, stack, pos + 1);
                    let ghost before = *stack;
                    assert(before.deep_view().len() == before@.len());
                    let top = stack.pop();
                    proof {
                        assert(stack@ =~= before@.take(pos as int));
                        lemma_deep_view_take(before, *stack, pos as int);
                        assert(st.take(pos + 1).take(pos as int) =~= st.take(pos as int));
                    }
                    let ghost out2 = out@;
                    push_chars(out, trail.as_slice());
                    push_chars(out, tag);
                    assert(out@ =~= out0 + with_closings(piece@, closings(st.skip(pos + 1))) + tag@);
                },
                None => {
                    push_chars(out, trail.as_slice());
                    assert(out@ =~= out0 + with_closings(piece@, Seq::<char>::empty())
                        + Seq::<char>::empty());
                },
            }
        } else if self.is_opening_tag(tag) {
            let raw_name = self.extract_tag_name(tag);
            let name = to_lowercase(raw_name.as_slice());
            assert(name@ == opened_name(tag@));
            let p = ['p'];
            assert(p@ == p_name());
            let is_p = chars_eq(name.as_slice(), &p);
            let ghost (c, s1) = if opens_block(tag@) {
                match rposition(st, p_name()) {
                    Some(pos) => (closings(st.skip(pos)), st.take(pos)),
                    None => (Seq::<char>::empty(), st),
                }
            } else {
                (Seq::<char>::empty(), st)
            };
            if is_p || self.is_block_element(name.as_slice()) {
                match rposition_exec(stack, &p) {
                    Some(pos) => {
                        proof {
                            lemma_rposition(st, p_name());
                        }
                        close_down(out, stack, pos);
                    },
                    None => {},
                }
            }
            assert(out@ =~= out1 + c);
            assert(stack.deep_view() == s1);
            push_chars(out, trail.as_slice());
            if !self.is_self_closing(name.as_slice()) {
                let ghost before = *stack;
                stack.push(name);
                proof {
                    lemma_deep_view_push(before, *stack, name);
                }
            }
            push_chars(out, tag);
            assert(out@ =~= out0 + with_closings(piece@, c) + tag@);
        } else {
            push_chars(out, trail.as_slice());
            push_chars(out, tag);
            assert(out@ =~= out0 + with_closings(piece@, Seq::<char>::empty()) + tag@);
        }
    }

    /// Repairs the structure of `html`: the result is [`fixed_html`]`(html)`.
    /// The empty document stays empty.
    pub fn fix(&self, html: &str) -> (res: String)
        ensures
            res@ == fixed_html(html@),
            html@.len() == 0 ==> res@.len() == 0,
    {
        if html.is_empty() {
            proof {
                lemma_fixed_html_empty(html@);
            }
            return String::new();
        }
        let pattern = "(<[^>]+>)";
        let tag_strings = regex_find_all(pattern, html);
        let piece_strings = regex_split(pattern, html);
        let tags = chars_of_all(&tag_strings);
        let pieces = chars_of_all(&piece_strings);
        let ghost tv = tags.deep_view();
        let ghost pv = pieces.deep_view();
        assert(tv == tag_texts(html@));
        assert(pv == gap_texts(html@));
        assert(pv.len() == tv.len() + 1);
        let n = tags.len();
        let mut out: Vec<char> = Vec::new();
        let mut stack: Vec<Vec<char>> = Vec::new();
        let mut k: usize = 0;
        assert(stack.deep_view() =~= Seq::<Seq<char>>::empty());
        while k < n
            invariant
                n == tags@.len(),
                pieces@.len() == n + 1,
                k <= n,
                tv == tags.deep_view(),
                pv == pieces.deep_view(),
                out@ == run(pv, tv, k as int).0,
                stack.deep_view() == run(pv, tv, k as int).1,
            decreases n - k,
        {
            proof {
                lemma_chars_deep_view(pieces@[k as int]);
                lemma_chars_deep_view(tags@[k as int]);
            }
            self.apply_tag(&mut out, &mut stack, pieces[k].as_slice(), tags[k].as_slice());
            k = k + 1;
        }
        proof {
            lemma_chars_deep_view(pieces@[n as int]);
        }
        let last = pieces[n].as_slice();
        let b = skip_back_ws_exec(last, last.len());
        proof {
            lemma_skip_back_while(last@, last@.len() as int, ws_pred());
        }
        let lead = sub_chars(last, 0, b);
        let trail = sub_chars(last, b, last.len());
        let ghost o = out@;
        push_chars(&mut out, lead.as_slice());
        close_down(&mut out, &mut stack, 0);
        push_chars(&mut out, trail.as_slice());
        assert(run(pv, tv, n as int).1.skip(0) =~= run(pv, tv, n as int).1);
        assert(out@ =~= o + with_closings(pv[n as int], closings(run(pv, tv, n as int).1)));
        string_of(out.as_slice())
    }
}

/// The empty document has no tags and is repaired to itself.
pub proof fn lemma_fixed_html_empty(html: Seq<char>)
    requires
        html.len() == 0,
    ensures
        fixed_html(html) == html,
{
    assert(tag_spans(html) =~= Seq::<(int, int)>::empty());
    assert(gap_texts(html)[0] =~= html);
    assert(fixed_html(html) =~= html);
}

// ---------------------------------------------------------------------------
// Laws
// ---------------------------------------------------------------------------

/// How many entries of `st` equal `x`.
pub open spec fn count_of(st: Seq<Seq<char>>, x: Seq<char>) -> nat
    decreases st.len(),
{
    if st.len() == 0 {
        0
    } else {
        count_of(st.drop_last(), x) + if st.last() == x {
            1nat
        } else {
            0nat
        }
    }
}

/// Counting occurrences in a concatenation.
proof fn lemma_count_concat(a: Seq<Seq<char>>, b: Seq<Seq<char>>, x: Seq<char>)
    ensures
        count_of(a + b, x) == count_of(a, x) + count_of(b, x),
    decreases b.len(),
{
    if b.len() == 0 {
        assert(a + b =~= a);
    } else {
        assert((a + b).drop_last() =~= a + b.drop_last());
        lemma_count_concat(a, b.drop_last(), x);
    }
}

/// A stack has no occurrence of `x` when `rposition` finds none, and one
/// more than the part below the found position otherwise.
proof fn lemma_count_rposition(st: Seq<Seq<char>>, x: Seq<char>)
    ensures
        rposition(st, x) is None ==> count_of(st, x) == 0,
        rposition(st, x) matches Some(pos) ==> count_of(st, x) == count_of(st.take(pos), x) + 1,
    decreases st.len(),
{
    if st.len() > 0 {
        if st.last() == x {
            assert(st.take(st.len() - 1) =~= st.drop_last());
        } else {
            lemma_count_rposition(st.drop_last(), x);
            if let Some(pos) = rposition(st, x) {
                lemma_rposition(st.drop_last(), x);
                assert(st.drop_last().take(pos) =~= st.take(pos));
            }
        }
    }
}

/// Any prefix has at most as many occurrences.
proof fn lemma_count_take(st: Seq<Seq<char>>, x: Seq<char>, k: int)
    requires
        0 <= k <= st.len(),
    ensures
        count_of(st.take(k), x) <= count_of(st, x),
{
    lemma_count_concat(st.take(k), st.skip(k), x);
    assert(st.take(k) + st.skip(k) =~= st);
}

/// Pushing counts the pushed entry.
proof fn lemma_count_push(st: Seq<Seq<char>>, y: Seq<char>, x: Seq<char>)
    ensures
        count_of(st.push(y), x) == count_of(st, x) + if y == x {
            1nat
        } else {
            0nat
        },
{
    assert(st.push(y).drop_last() =~= st);
}

/// The stack after a step, on a stack with at most one `p`: an opening `p`
/// or block element leaves no `p` open but itself.
proof fn lemma_step_paragraphs(st: Seq<Seq<char>>, tag: Seq<char>)
    requires
        count_of(st, p_name()) <= 1,
    ensures
        count_of(step(st, tag).2, p_name()) <= 1,
        is_opening_tag(tag) && opens_block(tag) ==> count_of(step(st, tag).2, p_name()) == if !is_void(
            tag,
        ) && opened_name(tag) == p_name() {
            1nat
        } else {
            0nat
        },
{
    if is_closing_tag(tag) {
        if let Some(pos) = rposition(st, tag_name(tag)) {
            lemma_rposition(st, tag_name(tag));
            lemma_count_take(st, p_name(), pos);
        }
    } else if is_opening_tag(tag) {
        lemma_count_rposition(st, p_name());
        let s1 = if opens_block(tag) {
            match rposition(st, p_name()) {
                Some(pos) => st.take(pos),
                None => st,
            }
        } else {
            st
        };
        if opens_block(tag) {
            assert(count_of(s1, p_name()) == 0);
        } else {
            assert(opened_name(tag) != p_name());
        }
        lemma_count_push(s1, opened_name(tag), p_name());
    }
}

/// Paragraphs never nest: at every point of the scan at most one `p`
/// element is open, since opening a `p` first closes the one already open.
pub proof fn law_paragraphs_never_nest(html: Seq<char>, k: int)
    requires
        0 <= k <= tag_texts(html).len(),
    ensures
        count_of(run(gap_texts(html), tag_texts(html), k).1, p_name()) <= 1,
    decreases k,
{
    if k > 0 {
        law_paragraphs_never_nest(html, k - 1);
        lemma_step_paragraphs(run(gap_texts(html), tag_texts(html), k - 1).1, tag_texts(html)[k - 1]);
    }
}

/// Block elements are moved out of paragraphs: right after a `p` or another
/// block element opens, no `p` element is open except, for a `p`, the new
/// one itself; so no block element ever sits inside a paragraph, however
/// deeply nested.
pub proof fn law_block_opens_outside_paragraph(html: Seq<char>, k: int)
    requires
        0 <= k < tag_texts(html).len(),
        is_opening_tag(tag_texts(html)[k]),
        opens_block(tag_texts(html)[k]),
    ensures
        count_of(run(gap_texts(html), tag_texts(html), k + 1).1, p_name()) == if !is_void(
            tag_texts(html)[k],
        ) && opened_name(tag_texts(html)[k]) == p_name() {
            1nat
        } else {
            0nat
        },
{
    law_paragraphs_never_nest(html, k);
    lemma_step_paragraphs(run(gap_texts(html), tag_texts(html), k).1, tag_texts(html)[k]);
}

/// The element events of closing `names` (bottom first) by popping them all
/// off a stack: `(false, n)` closes the element `n`, the top one first.
pub open spec fn close_events(names: Seq<Seq<char>>) -> Seq<(bool, Seq<char>)>
    decreases names.len(),
{
    if names.len() == 0 {
        seq![]
    } else {
        close_events(names.drop_first()) + seq![(false, names[0])]
    }
}

/// The element events of the tags that one step puts in the output, in
/// order: `(true, n)` for a kept opening tag that opens the element `n`, and
/// `(false, n)` for an inserted `</n>` or a kept closing tag named `n`.
pub open spec fn step_events(st: Seq<Seq<char>>, tag: Seq<char>) -> Seq<(bool, Seq<char>)> {
    if is_closing_tag(tag) {
        match rposition(st, tag_name(tag)) {
            Some(pos) => close_events(st.skip(pos + 1)) + seq![(false, tag_name(tag))],
            None => seq![],
        }
    } else if is_opening_tag(tag) {
        (if opens_block(tag) {
            match rposition(st, p_name()) {
                Some(pos) => close_events(st.skip(pos)),
                None => seq![],
            }
        } else {
            seq![]
        }) + if is_void(tag) {
            Seq::<(bool, Seq<char>)>::empty()
        } else {
            seq![(true, opened_name(tag))]
        }
    } else {
        seq![]
    }
}

/// The element events of the whole output for the tags before `k`.
pub open spec fn events_before(pieces: Seq<Seq<char>>, tags: Seq<Seq<char>>, k: int) -> Seq<
    (bool, Seq<char>),
>
    decreases k,
{
    if k <= 0 {
        seq![]
    } else {
        events_before(pieces, tags, k - 1) + step_events(run(pieces, tags, k - 1).1, tags[k - 1])
    }
}

/// The element events of the repaired document, in output order, including
/// the closing tags inserted at the end.
pub open spec fn fix_events(html: Seq<char>) -> Seq<(bool, Seq<char>)> {
    let pv = gap_texts(html);
    let tv = tag_texts(html);
    let n = tv.len() as int;
    events_before(pv, tv, n) + close_events(run(pv, tv, n).1)
}

/// One event against a stack of open elements: an opening pushes its name;
/// a closing must name the innermost open element, which it pops.
pub open spec fn nest_step(st: Seq<Seq<char>>, ev: (bool, Seq<char>)) -> Option<Seq<Seq<char>>> {
    if ev.0 {
        Some(st.push(ev.1))
    } else if st.len() > 0 && st.last() == ev.1 {
        Some(st.drop_last())
    } else {
        None
    }
}

/// The open elements after a sequence of events, or `None` if some closing
/// event does not close the innermost open element.
pub open spec fn nest_scan(evs: Seq<(bool, Seq<char>)>, st: Seq<Seq<char>>) -> Option<
    Seq<Seq<char>>,
>
    decreases evs.len(),
{
    if evs.len() == 0 {
        Some(st)
    } else {
        match nest_step(st, evs[0]) {
            Some(s2) => nest_scan(evs.drop_first(), s2),
            None => None,
        }
    }
}

/// Well nested: every closing closes the innermost open element, and no
/// element is left open at the end.
pub open spec fn well_nested(evs: Seq<(bool, Seq<char>)>) -> bool {
    nest_scan(evs, seq![]) == Some(Seq::<Seq<char>>::empty())
}

/// Scanning a concatenation scans its parts in turn.
proof fn lemma_nest_scan_concat(a: Seq<(bool, Seq<char>)>, b: Seq<(bool, Seq<char>)>, st: Seq<Seq<char>>)
    ensures
        nest_scan(a + b, st) == match nest_scan(a, st) {
            Some(s) => nest_scan(b, s),
            None => None,
        },
    decreases a.len(),
{
    if a.len() == 0 {
        assert(a + b =~= b);
    } else {
        assert((a + b)[0] == a[0]);
        assert((a + b).drop_first() =~= a.drop_first() + b);
        if let Some(s2) = nest_step(st, a[0]) {
            lemma_nest_scan_concat(a.drop_first(), b, s2);
        }
    }
}

/// Closing the names on top of a stack, top first, leaves what is below.
proof fn lemma_close_events_scan(base: Seq<Seq<char>>, names: Seq<Seq<char>>)
    ensures
        nest_scan(close_events(names), base + names) == Some(base),
    decreases names.len(),
{
    if names.len() == 0 {
        assert(base + names =~= base);
    } else {
        let rest = names.drop_first();
        let below = base.push(names[0]);
        assert(base + names =~= below + rest);
        lemma_close_events_scan(below, rest);
        let last = seq![(false, names[0])];
        lemma_nest_scan_concat(close_events(rest), last, below + rest);
        assert(below.drop_last() =~= base);
        assert(last.drop_first() =~= Seq::<(bool, Seq<char>)>::empty());
        assert(nest_step(below, last[0]) == Some(base));
        assert(nest_scan(last, below) == nest_scan(last.drop_first(), base));
        assert(nest_scan(Seq::<(bool, Seq<char>)>::empty(), base) == Some(base));
        assert(close_events(names) == close_events(rest) + last);
    }
}

/// The events of one step take the stack before it to the stack after it.
proof fn lemma_step_scan(st: Seq<Seq<char>>, tag: Seq<char>)
    ensures
        nest_scan(step_events(st, tag), st) == Some(step(st, tag).2),
{
    if is_closing_tag(tag) {
        if let Some(pos) = rposition(st, tag_name(tag)) {
            lemma_rposition(st, tag_name(tag));
            let below = st.take(pos + 1);
            assert(st =~= below + st.skip(pos + 1));
            lemma_close_events_scan(below, st.skip(pos + 1));
            let own = seq![(false, tag_name(tag))];
            lemma_nest_scan_concat(close_events(st.skip(pos + 1)), own, st);
            assert(below.last() == tag_name(tag));
            assert(below.drop_last() =~= st.take(pos));
            assert(own.drop_first() =~= Seq::<(bool, Seq<char>)>::empty());
            assert(nest_step(below, own[0]) == Some(st.take(pos)));
            assert(nest_scan(own, below) == nest_scan(own.drop_first(), st.take(pos)));
            assert(nest_scan(Seq::<(bool, Seq<char>)>::empty(), st.take(pos)) == Some(st.take(pos)));
        }
    } else if is_opening_tag(tag) {
        let first: Seq<(bool, Seq<char>)> = if opens_block(tag) {
            match rposition(st, p_name()) {
                Some(pos) => close_events(st.skip(pos)),
                None => seq![],
            }
        } else {
            seq![]
        };
        let s1 = if opens_block(tag) {
            match rposition(st, p_name()) {
                Some(pos) => st.take(pos),
                None => st,
            }
        } else {
            st
        };
        if opens_block(tag) {
            if let Some(pos) = rposition(st, p_name()) {
                lemma_rposition(st, p_name());
                assert(st =~= st.take(pos) + st.skip(pos));
                lemma_close_events_scan(st.take(pos), st.skip(pos));
            }
        }
        assert(nest_scan(first, st) == Some(s1));
        let second: Seq<(bool, Seq<char>)> = if is_void(tag) {
            Seq::<(bool, Seq<char>)>::empty()
        } else {
            seq![(true, opened_name(tag))]
        };
        lemma_nest_scan_concat(first, second, st);
        if !is_void(tag) {
            assert(second.drop_first() =~= Seq::<(bool, Seq<char>)>::empty());
            assert(nest_step(s1, second[0]) == Some(s1.push(opened_name(tag))));
            assert(nest_scan(second, s1) == nest_scan(second.drop_first(), s1.push(opened_name(tag))));
            assert(nest_scan(Seq::<(bool, Seq<char>)>::empty(), s1.push(opened_name(tag))) == Some(
                s1.push(opened_name(tag)),
            ));
        } else {
            assert(nest_scan(second, s1) == Some(s1));
        }
        assert(step_events(st, tag) == first + second);
    }
}

/// The events before tag `k` take the empty stack to the fixer's stack.
proof fn lemma_events_before_scan(pv: Seq<Seq<char>>, tv: Seq<Seq<char>>, k: int)
    requires
        0 <= k <= tv.len(),
    ensures
        nest_scan(events_before(pv, tv, k), seq![]) == Some(run(pv, tv, k).1),
    decreases k,
{
    if k > 0 {
        lemma_events_before_scan(pv, tv, k - 1);
        let st = run(pv, tv, k - 1).1;
        lemma_nest_scan_concat(events_before(pv, tv, k - 1), step_events(st, tv[k - 1]), seq![]);
        lemma_step_scan(st, tv[k - 1]);
    }
}

/// The repaired document is well nested: every closing tag in it (inserted
/// or kept) closes the innermost element open at that point, and no element
/// is left open at the end.
pub proof fn law_output_well_nested(html: Seq<char>)
    ensures
        well_nested(fix_events(html)),
{
    let pv = gap_texts(html);
    let tv = tag_texts(html);
    let n = tv.len() as int;
    let st = run(pv, tv, n).1;
    lemma_events_before_scan(pv, tv, n);
    lemma_nest_scan_concat(events_before(pv, tv, n), close_events(st), seq![]);
    lemma_close_events_scan(seq![], st);
    assert(Seq::<Seq<char>>::empty() + st =~= st);
}

/// The events are those of the tags a step emits: each inserted closing tag
/// `</n>` closes `n`, a kept closing tag closes the element it names, and a
/// kept opening tag of an element that is not void opens the element it
/// names; a dropped closing tag emits nothing at all.
pub proof fn law_step_text_and_events(st: Seq<Seq<char>>, tag: Seq<char>)
    ensures
        step(st, tag).0 == closings(inserted_names(st, tag)),
        step(st, tag).1 == tag ==> step_events(st, tag) == close_events(inserted_names(st, tag)) + (
        if is_closing_tag(tag) {
            seq![(false, tag_name(tag))]
        } else if is_opening_tag(tag) && !is_void(tag) {
            seq![(true, opened_name(tag))]
        } else {
            Seq::<(bool, Seq<char>)>::empty()
        }),
        step(st, tag).1 != tag ==> is_closing_tag(tag) && step(st, tag).0.len() == 0 && step(
            st,
            tag,
        ).1.len() == 0 && step_events(st, tag).len() == 0,
{
    if is_closing_tag(tag) {
        if rposition(st, tag_name(tag)) is None {
            assert(tag.len() >= 2);
        }
    } else if is_opening_tag(tag) {
        if !opens_block(tag) || rposition(st, p_name()) is None {
            assert(close_events(Seq::<Seq<char>>::empty()) =~= Seq::<(bool, Seq<char>)>::empty());
            assert(Seq::<(bool, Seq<char>)>::empty() + step_events(st, tag).skip(0) =~= step_events(st, tag));
        }
    }
}

/// Inserted closing tags follow the text they close: a text piece is split
/// where its trailing whitespace begins, everything before the split is
/// kept before the inserted tags, and only whitespace follows them.
pub proof fn law_closings_follow_text(piece: Seq<char>, closing: Seq<char>)
    ensures
        0 <= lead_len(piece) <= piece.len(),
        piece.take(lead_len(piece)) + piece.skip(lead_len(piece)) == piece,
        with_closings(piece, closing) == piece.take(lead_len(piece)) + closing + piece.skip(
            lead_len(piece),
        ),
        forall|i: int| lead_len(piece) <= i < piece.len() ==> is_ws(#[trigger] piece[i]),
        lead_len(piece) > 0 ==> !is_ws(piece[lead_len(piece) - 1]),
{
    lemma_skip_back_while(piece, piece.len() as int, ws_pred());
    assert(piece.take(lead_len(piece)) + piece.skip(lead_len(piece)) =~= piece);
}

/// The closing tags the fixer inserts before tag `k` of `html`.
pub open spec fn inserted_text(html: Seq<char>, k: int) -> Seq<char> {
    step(run(gap_texts(html), tag_texts(html), k).1, tag_texts(html)[k]).0
}

/// The text the fixer keeps of tag `k` of `html`.
pub open spec fn kept_text(html: Seq<char>, k: int) -> Seq<char> {
    step(run(gap_texts(html), tag_texts(html), k).1, tag_texts(html)[k]).1
}

/// The text pieces `pieces[..k]`, each with the closing tags `ins(j)` placed
/// before its trailing whitespace and followed by the kept tag `kept(j)`.
pub open spec fn interleave(
    pieces: Seq<Seq<char>>,
    ins: spec_fn(int) -> Seq<char>,
    kept: spec_fn(int) -> Seq<char>,
    k: int,
) -> Seq<char>
    decreases k,
{
    if k <= 0 {
        seq![]
    } else {
        interleave(pieces, ins, kept, k - 1) + with_closings(pieces[k - 1], ins(k - 1)) + kept(
            k - 1,
        )
    }
}

/// The scan before tag `k` is the interleaving of the text pieces with what
/// was inserted and kept for each tag.
proof fn lemma_run_interleaves(html: Seq<char>, k: int)
    requires
        0 <= k <= tag_texts(html).len(),
    ensures
        run(gap_texts(html), tag_texts(html), k).0 == interleave(
            gap_texts(html),
            |j: int| inserted_text(html, j),
            |j: int| kept_text(html, j),
            k,
        ),
    decreases k,
{
    if k > 0 {
        lemma_run_interleaves(html, k - 1);
    }
}

/// Content is preserved: the repaired document is every text piece of the
/// input, in order (with closing tags inserted where its trailing whitespace
/// begins), and every tag of the input kept verbatim, except closing tags
/// that match no open element, which are dropped; closing tags for what is
/// still open at the end come before the final whitespace.
pub proof fn law_content_preserved(html: Seq<char>)
    ensures
        fixed_html(html) == interleave(
            gap_texts(html),
            |j: int| inserted_text(html, j),
            |j: int| kept_text(html, j),
            tag_texts(html).len() as int,
        ) + with_closings(
            gap_texts(html)[tag_texts(html).len() as int],
            closings(run(gap_texts(html), tag_texts(html), tag_texts(html).len() as int).1),
        ),
        forall|k: int|
            #![trigger kept_text(html, k)]
            0 <= k < tag_texts(html).len() ==> kept_text(html, k) == tag_texts(html)[k] || (
            is_closing_tag(tag_texts(html)[k]) && kept_text(html, k).len() == 0),
{
    lemma_run_interleaves(html, tag_texts(html).len() as int);
}

/// Declarations and comments (tags that start with `<!`, such as
/// `<!DOCTYPE html>` or `<!-- note -->`) are neither opening nor closing
/// tags: they are kept verbatim, nothing is inserted before them, no element
/// event is emitted for them, and the stack of open elements is unchanged,
/// so no closing tag is ever inserted for them.
pub proof fn law_declarations_kept_verbatim(st: Seq<Seq<char>>, tag: Seq<char>)
    requires
        tag.len() >= 2,
        tag[0] == '<',
        tag[1] == '!',
    ensures
        step(st, tag).0.len() == 0,
        step(st, tag).1 == tag,
        step(st, tag).2 == st,
        step_events(st, tag).len() == 0,
{
    assert(tag.take(2) =~= seq!['<', '!']);
    assert(tag.take(2) != seq!['<', '/']);
}

/// In a whole document, every tag that starts with `<!` is kept verbatim
/// where it stands and leaves the open elements as they were.
pub proof fn law_declarations_in_document(html: Seq<char>, k: int)
    requires
        0 <= k < tag_texts(html).len(),
        tag_texts(html)[k].len() >= 2,
        tag_texts(html)[k][0] == '<',
        tag_texts(html)[k][1] == '!',
    ensures
        inserted_text(html, k).len() == 0,
        kept_text(html, k) == tag_texts(html)[k],
        run(gap_texts(html), tag_texts(html), k + 1).1 == run(gap_texts(html), tag_texts(html), k).1,
{
    law_declarations_kept_verbatim(run(gap_texts(html), tag_texts(html), k).1, tag_texts(html)[k]);
}

} // verus!
