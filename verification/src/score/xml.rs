//! A minimal XML element tree over quick-xml's event reader: the reader
//! stays behind a cursor whose events the library folds into elements
//! (name, attributes, children, text).

use vstd::prelude::*;
use crate::text::{chars_of, parse_i32, parse_i32_chars, push_chars, str_eq, to_string, trim, trim_chars};

verus! {

#[verifier::external_type_specification]
#[verifier::external_body]
#[verifier::reject_recursive_types(R)]
pub struct ExXmlReader<R>(quick_xml::Reader<R>);

#[verifier::external_type_specification]
#[verifier::external_body]
pub struct ExBytesStart<'a>(quick_xml::events::BytesStart<'a>);

#[verifier::external_type_specification]
#[verifier::external_body]
pub struct ExBytesText<'a>(quick_xml::events::BytesText<'a>);

/// A start or empty-element tag: its name and its attributes, `None`
/// standing for an attribute the reader could not read.
#[derive(Debug, Clone)]
pub struct XmlTag {
    pub name: String,
    pub attributes: Vec<Option<(String, String)>>,
}

/// One reader event, as plain values.
#[derive(Debug, Clone)]
pub enum XmlEvent {
    Start(XmlTag),
    Empty(XmlTag),
    End,
    /// Text content, unescaped; `None` when unescaping failed.
    Text(Option<String>),
    Eof,
    /// Comments, processing instructions, declarations, CDATA, doctype.
    Other,
    /// The document is not well-formed XML.
    Error,
}

/// The `index`-th event quick-xml's reader produces for `data` (counting
/// from 0, with default configuration).
pub uninterp spec fn xml_event_at(data: Seq<u8>, index: int) -> XmlEvent;

/// A reader over `source` that has produced `read` events so far. Only
/// `new` makes one, and only `next_event` advances it.
struct XmlCursor<'a> {
    reader: quick_xml::Reader<&'a [u8]>,
    source: Ghost<Seq<u8>>,
    read: Ghost<int>,
}

/// quick-xml's `Reader::from_reader` over a byte slice.
#[verifier::external_body]
fn open_reader<'a>(data: &'a [u8]) -> quick_xml::Reader<&'a [u8]> {
    quick_xml::Reader::from_reader(data)
}

/// quick-xml's tag name and attribute iterator, converted to owned
/// strings (lossy UTF-8); an attribute the iterator reports as malformed
/// becomes `None`. Nothing is stated of the result.
#[verifier::external_body]
fn tag_of(start: &quick_xml::events::BytesStart) -> XmlTag {
    let name = String::from_utf8_lossy(start.name().as_ref()).into_owned();
    let attributes = start
        .attributes()
        .map(|a| a.ok().map(|a| (
            String::from_utf8_lossy(a.key.as_ref()).into_owned(),
            String::from_utf8_lossy(&a.value).into_owned(),
        )))
        .collect();
    XmlTag { name, attributes }
}

/// quick-xml's `BytesText::unescape`, owned; `None` on an unescape error.
/// Nothing is stated of the result.
#[verifier::external_body]
fn text_of(text: &quick_xml::events::BytesText) -> Option<String> {
    text.unescape().ok().map(|t| t.into_owned())
}

impl<'a> XmlCursor<'a> {
    /// The document the cursor reads.
    closed spec fn source(&self) -> Seq<u8> {
        self.source@
    }

    /// How many events the cursor has produced.
    closed spec fn events_read(&self) -> int {
        self.read@
    }

    /// A cursor at the start of `data`.
    fn new(data: &'a [u8]) -> (c: XmlCursor<'a>)
        ensures
            c.source() == data@,
            c.events_read() == 0,
    {
        XmlCursor { reader: open_reader(data), source: Ghost(data@), read: Ghost(0) }
    }

    /// quick-xml's `Reader::read_event`: the next event of the document,
    /// which this contract names as the cursor's `read`-th event of its
    /// source.
    #[verifier::external_body]
    fn next_event(&mut self) -> (e: XmlEvent)
        ensures
            e == xml_event_at(old(self).source(), old(self).events_read()),
            final(self).source() == old(self).source(),
            final(self).events_read() == old(self).events_read() + 1,
    {
        match self.reader.read_event() {
            Ok(quick_xml::events::Event::Start(s)) => XmlEvent::Start(tag_of(&s)),
            Ok(quick_xml::events::Event::Empty(s)) => XmlEvent::Empty(tag_of(&s)),
            Ok(quick_xml::events::Event::End(_)) => XmlEvent::End,
            Ok(quick_xml::events::Event::Text(t)) => XmlEvent::Text(text_of(&t)),
            Ok(quick_xml::events::Event::Eof) => XmlEvent::Eof,
            Ok(_) => XmlEvent::Other,
            Err(_) => XmlEvent::Error,
        }
    }
}

/// An element: name, attributes, children and its own text.
#[derive(Debug)]
pub struct Element {
    pub name: String,
    pub attributes: Vec<(String, String)>,
    pub children: Vec<Element>,
    pub text: String,
}

/// The mathematical content of an element.
pub struct Tree {
    pub name: Seq<char>,
    pub attributes: Seq<(Seq<char>, Seq<char>)>,
    pub children: Seq<Tree>,
    pub text: Seq<char>,
}

impl Element {
    pub open spec fn tree(self) -> Tree
        decreases self,
    {
        Tree {
            name: self.name@,
            attributes: self.attributes@.map_values(|p: (String, String)| (p.0@, p.1@)),
            children: Seq::new(self.children@.len(), |k: int| {
                if 0 <= k < self.children@.len() {
                    self.children@[k].tree()
                } else {
                    arbitrary()
                }
            }),
            text: self.text@,
        }
    }
}


/// The attributes a tag holds, readable ones only, as text.
pub open spec fn present_attributes(a: Seq<Option<(String, String)>>) -> Seq<(Seq<char>, Seq<char>)>
    decreases a.len(),
{
    if a.len() == 0 {
        Seq::empty()
    } else {
        let r = present_attributes(a.drop_last());
        match a.last() {
            Some(p) => r.push((p.0@, p.1@)),
            None => r,
        }
    }
}

/// A fresh element for a tag.
pub open spec fn tag_tree(tag: XmlTag) -> Tree {
    Tree { name: tag.name@, attributes: present_attributes(tag.attributes@), children: Seq::empty(), text: Seq::empty() }
}

/// The open elements with `child` added to the innermost one.
pub open spec fn adopt(stack: Seq<Tree>, child: Tree) -> Seq<Tree> {
    let last = stack.last();
    stack.update(stack.len() - 1, Tree { children: last.children.push(child), ..last })
}

/// Builds the element tree from the events at positions `i`, `i + 1`, …:
/// `stack` holds the open elements, `root` the last completed top-level
/// element. The document ends at the first end tag that closes the
/// outermost element, at end of input, or fails on a reader error, on an
/// end tag with nothing open, or when no end of input arrives within one
/// event per byte (plus one).
pub open spec fn document_from(data: Seq<u8>, i: int, stack: Seq<Tree>, root: Option<Tree>) -> Option<Tree>
    decreases data.len() + 1 - i,
{
    if i < 0 || i > data.len() {
        None
    } else {
        match xml_event_at(data, i) {
            XmlEvent::Start(tag) => document_from(data, i + 1, stack.push(tag_tree(tag)), root),
            XmlEvent::Empty(tag) => if stack.len() > 0 {
                document_from(data, i + 1, adopt(stack, tag_tree(tag)), root)
            } else {
                document_from(data, i + 1, stack, Some(tag_tree(tag)))
            },
            XmlEvent::End => if stack.len() == 0 {
                None
            } else if stack.len() > 1 {
                document_from(data, i + 1, adopt(stack.drop_last(), stack.last()), root)
            } else {
                Some(stack.last())
            },
            XmlEvent::Text(t) => match t {
                Some(content) => if stack.len() > 0 {
                    let last = stack.last();
                    document_from(data, i + 1, stack.update(stack.len() - 1, Tree { text: last.text + content@, ..last }), root)
                } else {
                    document_from(data, i + 1, stack, root)
                },
                None => document_from(data, i + 1, stack, root),
            },
            XmlEvent::Eof => root,
            XmlEvent::Other => document_from(data, i + 1, stack, root),
            XmlEvent::Error => None,
        }
    }
}

/// The document element of `data`, if it reads as XML.
pub open spec fn document(data: Seq<u8>) -> Option<Tree> {
    document_from(data, 0, Seq::empty(), None)
}

pub open spec fn trees(es: Seq<Element>) -> Seq<Tree> {
    Seq::new(es.len(), |k: int| es[k].tree())
}

pub open spec fn opt_tree(e: Option<Element>) -> Option<Tree> {
    match e {
        Some(x) => Some(x.tree()),
        None => None,
    }
}

fn element_of(tag: XmlTag) -> (e: Element)
    ensures
        e.tree() == tag_tree(tag),
{
    let mut attributes: Vec<(String, String)> = Vec::new();
    let mut k: usize = 0;
    while k < tag.attributes.len()
        invariant
            k <= tag.attributes@.len(),
            attributes@.map_values(|p: (String, String)| (p.0@, p.1@)) == present_attributes(tag.attributes@.take(k as int)),
        decreases tag.attributes.len() - k,
    {
        proof {
            let t = tag.attributes@.take(k + 1);
            assert(t.drop_last() =~= tag.attributes@.take(k as int));
            assert(t.last() == tag.attributes@[k as int]);
        }
        match &tag.attributes[k] {
            Some(pair) => {
                let key = pair.0.clone();
                let value = pair.1.clone();
                let ghost before = attributes@;
                attributes.push((key, value));
                proof {
                    assert(attributes@.map_values(|p: (String, String)| (p.0@, p.1@))
                        =~= before.map_values(|p: (String, String)| (p.0@, p.1@)).push((pair.0@, pair.1@)));
                }
            },
            None => {},
        }
        k = k + 1;
    }
    proof {
        assert(tag.attributes@.take(tag.attributes@.len() as int) =~= tag.attributes@);
    }
    let e = Element { name: tag.name, attributes, children: Vec::new(), text: String::new() };
    assert(e.tree().children =~= Seq::<Tree>::empty());
    assert(e.tree().text =~= Seq::<char>::empty());
    e
}

/// Adds `child` under `parent`.
fn adopt_child(parent: &mut Element, child: Element)
    ensures
        final(parent).tree() == (Tree { children: old(parent).tree().children.push(child.tree()), ..old(parent).tree() }),
{
    let ghost before = parent.tree();
    let ghost ct = child.tree();
    parent.children.push(child);
    assert(parent.tree().children =~= before.children.push(ct));
}

/// Parses bytes into the document element (doctype, comments and
/// processing instructions skipped).
pub fn parse_document(data: &[u8]) -> (r: Option<Element>)
    ensures
        opt_tree(r) == document(data@),
{
    let mut cursor = XmlCursor::new(data);
    let mut stack: Vec<Element> = Vec::new();
    let mut root: Option<Element> = None;
    let bound: u128 = data.len() as u128;
    let mut count: u128 = 0;
    assert(trees(stack@) =~= Seq::<Tree>::empty());
    loop
        invariant
            bound <= usize::MAX,
            cursor.source() == data@,
            cursor.events_read() == count as int,
            bound == data@.len(),
            count <= bound + 1,
            document_from(data@, count as int, trees(stack@), opt_tree(root)) == document(data@),
        decreases bound + 1 - count,
    {
        if count > bound {
            return None;
        }
        let ghost st = trees(stack@);
        let ghost rt = opt_tree(root);
        let event = cursor.next_event();
        count = count + 1;
        match event {
            XmlEvent::Start(tag) => {
                let e = element_of(tag);
                stack.push(e);
                assert(trees(stack@) =~= st.push(tag_tree(tag)));
            },
            XmlEvent::Empty(tag) => {
                let e = element_of(tag);
                if stack.len() > 0 {
                    let mut parent = stack.pop().unwrap();
                    adopt_child(&mut parent, e);
                    stack.push(parent);
                    assert(trees(stack@) =~= adopt(st, tag_tree(tag)));
                } else {
                    root = Some(e);
                }
            },
            XmlEvent::End => {
                if stack.len() == 0 {
                    return None;
                }
                let element = stack.pop().unwrap();
                assert(trees(stack@) =~= st.drop_last());
                if stack.len() > 0 {
                    let mut parent = stack.pop().unwrap();
                    adopt_child(&mut parent, element);
                    stack.push(parent);
                    assert(trees(stack@) =~= adopt(st.drop_last(), st.last()));
                } else {
                    return Some(element);
                }
            },
            XmlEvent::Text(t) => {
                match t {
                    Some(content) => {
                        if stack.len() > 0 {
                            let mut current = stack.pop().unwrap();
                            let ghost ct = current.tree();
                            current.text.append(content.as_str());
                            assert(current.tree() =~= (Tree { text: ct.text + content@, ..ct }));
                            stack.push(current);
                            assert(trees(stack@) =~= st.update(st.len() - 1, Tree { text: ct.text + content@, ..ct }));
                        }
                    },
                    None => {},
                }
            },
            XmlEvent::Eof => {
                return root;
            },
            XmlEvent::Other => {},
            XmlEvent::Error => {
                return None;
            },
        }
    }
}


/// The first of `cs` named `name`.
pub open spec fn first_named(cs: Seq<Tree>, name: Seq<char>) -> Option<Tree>
    decreases cs.len(),
{
    if cs.len() == 0 {
        None
    } else if cs[0].name == name {
        Some(cs[0])
    } else {
        first_named(cs.drop_first(), name)
    }
}

/// The members of `cs` named `name`, in order.
pub open spec fn named(cs: Seq<Tree>, name: Seq<char>) -> Seq<Tree>
    decreases cs.len(),
{
    if cs.len() == 0 {
        Seq::empty()
    } else if cs.last().name == name {
        named(cs.drop_last(), name).push(cs.last())
    } else {
        named(cs.drop_last(), name)
    }
}

/// The value of the first attribute keyed `name`.
pub open spec fn attribute_of(attrs: Seq<(Seq<char>, Seq<char>)>, name: Seq<char>) -> Option<Seq<char>>
    decreases attrs.len(),
{
    if attrs.len() == 0 {
        None
    } else if attrs[0].0 == name {
        Some(attrs[0].1)
    } else {
        attribute_of(attrs.drop_first(), name)
    }
}

/// An element's text followed by its descendants' text, in document
/// order.
pub open spec fn string_value(t: Tree) -> Seq<char>
    decreases t, 0int,
{
    t.text + children_value(t.children, t.children.len() as int)
}

/// The text of the first `n` of `cs`.
pub open spec fn children_value(cs: Seq<Tree>, n: int) -> Seq<char>
    decreases cs, n,
{
    if n <= 0 || n > cs.len() {
        Seq::empty()
    } else {
        children_value(cs, n - 1) + string_value(cs[n - 1])
    }
}

pub open spec fn opt_ref_tree(e: Option<&Element>) -> Option<Tree> {
    match e {
        Some(x) => Some(x.tree()),
        None => None,
    }
}

pub proof fn lemma_first_named_at(cs: Seq<Tree>, name: Seq<char>, k: int)
    requires
        0 <= k <= cs.len(),
        forall|t: int| 0 <= t < k ==> (#[trigger] cs[t]).name != name,
    ensures
        k < cs.len() && cs[k].name == name ==> first_named(cs, name) == Some(cs[k]),
        k == cs.len() ==> first_named(cs, name) is None,
    decreases k,
{
    if k > 0 {
        assert forall|t: int| 0 <= t < k - 1 implies (#[trigger] cs.drop_first()[t]).name != name by {
            assert(cs.drop_first()[t] == cs[t + 1]);
        }
        lemma_first_named_at(cs.drop_first(), name, k - 1);
        if k < cs.len() {
            assert(cs.drop_first()[k - 1] == cs[k]);
        }
    }
}

pub proof fn lemma_attribute_at(attrs: Seq<(Seq<char>, Seq<char>)>, name: Seq<char>, k: int)
    requires
        0 <= k <= attrs.len(),
        forall|t: int| 0 <= t < k ==> (#[trigger] attrs[t]).0 != name,
    ensures
        k < attrs.len() && attrs[k].0 == name ==> attribute_of(attrs, name) == Some(attrs[k].1),
        k == attrs.len() ==> attribute_of(attrs, name) is None,
    decreases k,
{
    if k > 0 {
        assert forall|t: int| 0 <= t < k - 1 implies (#[trigger] attrs.drop_first()[t]).0 != name by {
            assert(attrs.drop_first()[t] == attrs[t + 1]);
        }
        lemma_attribute_at(attrs.drop_first(), name, k - 1);
        if k < attrs.len() {
            assert(attrs.drop_first()[k - 1] == attrs[k]);
        }
    }
}

impl Element {
    /// The first child named `name`.
    pub fn first(&self, name: &str) -> (r: Option<&Element>)
        ensures
            opt_ref_tree(r) == first_named(self.tree().children, name@),
    {
        let ghost cs = self.tree().children;
        let mut k: usize = 0;
        while k < self.children.len()
            invariant
                k <= self.children@.len(),
                cs == self.tree().children,
                forall|t: int| 0 <= t < k ==> (#[trigger] cs[t]).name != name@,
            decreases self.children.len() - k,
        {
            proof {
                assert(cs[k as int] == self.children@[k as int].tree());
            }
            if str_eq(self.children[k].name.as_str(), name) {
                proof {
                    lemma_first_named_at(cs, name@, k as int);
                }
                return Some(&self.children[k]);
            }
            k = k + 1;
        }
        proof {
            lemma_first_named_at(cs, name@, k as int);
        }
        None
    }

    /// The children named `name`, in order.
    pub fn elements(&self, name: &str) -> (r: Vec<&Element>)
        ensures
            r@.len() == named(self.tree().children, name@).len(),
            forall|k: int| 0 <= k < r@.len() ==> #[trigger] r@[k].tree() == named(self.tree().children, name@)[k],
    {
        let ghost cs = self.tree().children;
        let mut out: Vec<&Element> = Vec::new();
        let mut k: usize = 0;
        while k < self.children.len()
            invariant
                k <= self.children@.len(),
                cs == self.tree().children,
                out@.len() == named(cs.take(k as int), name@).len(),
                forall|t: int| 0 <= t < out@.len() ==> #[trigger] out@[t].tree() == named(cs.take(k as int), name@)[t],
            decreases self.children.len() - k,
        {
            proof {
                let p = cs.take(k + 1);
                assert(p.drop_last() =~= cs.take(k as int));
                assert(p.last() == cs[k as int]);
                assert(cs[k as int] == self.children@[k as int].tree());
            }
            if str_eq(self.children[k].name.as_str(), name) {
                out.push(&self.children[k]);
            }
            k = k + 1;
        }
        proof {
            assert(cs.take(cs.len() as int) =~= cs);
        }
        out
    }

    /// The value of the first attribute keyed `name`.
    pub fn attribute(&self, name: &str) -> (r: Option<&str>)
        ensures
            match r {
                Some(v) => attribute_of(self.tree().attributes, name@) == Some(v@),
                None => attribute_of(self.tree().attributes, name@) is None,
            },
    {
        let ghost attrs = self.tree().attributes;
        let mut k: usize = 0;
        while k < self.attributes.len()
            invariant
                k <= self.attributes@.len(),
                attrs == self.tree().attributes,
                forall|t: int| 0 <= t < k ==> (#[trigger] attrs[t]).0 != name@,
            decreases self.attributes.len() - k,
        {
            if str_eq(self.attributes[k].0.as_str(), name) {
                proof {
                    lemma_attribute_at(attrs, name@, k as int);
                }
                return Some(self.attributes[k].1.as_str());
            }
            k = k + 1;
        }
        proof {
            lemma_attribute_at(attrs, name@, k as int);
        }
        None
    }

    /// Concatenated descendant text, like a DOM node's string value.
    pub fn string_value(&self) -> (s: String)
        ensures
            s@ == string_value(self.tree()),
    {
        let mut out: Vec<char> = Vec::new();
        self.push_string_value(&mut out);
        assert(out@ =~= string_value(self.tree()));
        to_string(&out)
    }

    fn push_string_value(&self, out: &mut Vec<char>)
        ensures
            final(out)@ == old(out)@ + string_value(self.tree()),
        decreases self,
    {
        let ghost s0 = out@;
        let ghost cs = self.tree().children;
        let text = chars_of(self.text.as_str());
        push_chars(out, &text);
        let mut k: usize = 0;
        while k < self.children.len()
            invariant
                k <= self.children@.len(),
                cs == self.tree().children,
                out@ == s0 + self.text@ + children_value(cs, k as int),
            decreases self.children.len() - k,
        {
            let ghost before = out@;
            self.children[k].push_string_value(out);
            proof {
                assert(cs[k as int] == self.children@[k as int].tree());
                assert(out@ =~= s0 + self.text@ + children_value(cs, k + 1));
            }
            k = k + 1;
        }
    }
}

/// The trimmed text of the element reached by following `path` through
/// first children; `None` when a step is missing or the text is empty.
pub open spec fn text_at(t: Tree, path: Seq<Seq<char>>) -> Option<Seq<char>>
    decreases path.len(),
{
    if path.len() == 0 {
        let text = trim(string_value(t));
        if text.len() == 0 { None } else { Some(text) }
    } else {
        match first_named(t.children, path[0]) {
            Some(c) => text_at(c, path.drop_first()),
            None => None,
        }
    }
}

/// The integer value of the first child named `name`.
pub open spec fn int_at(t: Tree, name: Seq<char>) -> Option<int> {
    match first_named(t.children, name) {
        Some(c) => parse_i32(trim(string_value(c))),
        None => None,
    }
}

/// The trimmed text at the end of `path` (see [`text_at`]).
pub fn first_text(element: &Element, path: &[&str]) -> (r: Option<String>)
    ensures
        match r {
            Some(s) => text_at(element.tree(), path@.map_values(|p: &str| p@)) == Some(s@),
            None => text_at(element.tree(), path@.map_values(|p: &str| p@)) is None,
        },
{
    let ghost full = path@.map_values(|p: &str| p@);
    let mut current = element;
    let mut k: usize = 0;
    assert(full.subrange(0, full.len() as int) =~= full);
    while k < path.len()
        invariant
            k <= path@.len(),
            full == path@.map_values(|p: &str| p@),
            text_at(element.tree(), full) == text_at(current.tree(), full.subrange(k as int, full.len() as int)),
        decreases path.len() - k,
    {
        let ghost rest = full.subrange(k as int, full.len() as int);
        assert(rest[0] == path@[k as int]@);
        assert(rest.drop_first() =~= full.subrange(k + 1, full.len() as int));
        match current.first(path[k]) {
            Some(next) => {
                current = next;
            },
            None => {
                return None;
            },
        }
        k = k + 1;
    }
    let chars = chars_of(current.string_value().as_str());
    let text = trim_chars(&chars);
    assert(full.subrange(k as int, full.len() as int) =~= Seq::<Seq<char>>::empty());
    if text.len() == 0 {
        None
    } else {
        Some(to_string(&text))
    }
}

/// The integer in the first child named `name`.
pub fn int_value(element: &Element, name: &str) -> (r: Option<i32>)
    ensures
        match r {
            Some(v) => int_at(element.tree(), name@) == Some(v as int),
            None => int_at(element.tree(), name@) is None,
        },
{
    match element.first(name) {
        Some(child) => {
            let chars = chars_of(child.string_value().as_str());
            let text = trim_chars(&chars);
            parse_i32_chars(&text)
        },
        None => None,
    }
}

} // verus!
