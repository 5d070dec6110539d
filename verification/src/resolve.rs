//! Mapping a typed accession to the identifier the record archive can be
//! queried with.
//!
//! Experiment and run accessions are queryable as given. A sample accession
//! carries no queryable identifier of its own: the sample-lookup service's
//! response document is searched for the sample's archive cross-reference,
//! and the embedded experiment code is extracted from it. Only the XML parse
//! itself is trusted; it yields the document as a plain-value tree
//! ([`XmlNode`]), and the whole search over that tree is verified against
//! [`spec_resolve`].

use crate::accession::AccessionCodes;
use vstd::prelude::*;
use vstd::string::StringSliceAdditionalSpecFns;

verus! {

/// A structural fault in the sample-lookup response, distinguishable from the
/// legitimate "no cross-reference exists" outcome.
#[derive(Debug, Clone, Copy, PartialEq, Eq, Structural)]
pub enum ResolveError {
    /// The response is not a well-formed document.
    MalformedDocument,
    /// A relation element lacks its type or target attribute.
    MissingAttribute,
    /// The response nests elements more deeply than the resolver accepts:
    /// the reference parser descends once per nested element, so the depth is
    /// bounded before the text is handed to it.
    ExcessiveNesting,
}

/// The deepest element nesting a lookup response may have. The reference
/// parser's recursion is one descent per nested element, so this cap keeps it
/// well within a default thread stack even in unoptimized builds; real
/// sample-lookup responses nest a handful of levels.
pub const DEPTH_LIMIT: usize = 64;

/// Where the nesting scan stands in the document's lexical structure.
#[derive(Debug, Clone, Copy)]
pub enum ScanState {
    /// Character data between markup.
    Text,
    /// After `<`.
    Lt,
    /// After `<!`.
    Bang,
    /// After `<!-`.
    Comm1,
    /// Inside a comment.
    Comment,
    /// Inside a comment, after `-`.
    CommDash,
    /// Inside a comment, after `--`.
    CommDash2,
    /// After `<![`, expecting `C`.
    CdC,
    /// Expecting `D` of `CDATA`.
    CdD,
    /// Expecting the first `A` of `CDATA`.
    CdA1,
    /// Expecting `T` of `CDATA`.
    CdT,
    /// Expecting the second `A` of `CDATA`.
    CdA2,
    /// Expecting the `[` that opens the CDATA content.
    CdBr,
    /// Inside CDATA content.
    Cdata,
    /// Inside CDATA, after `]`.
    CdEnd1,
    /// Inside CDATA, after `]]`.
    CdEnd2,
    /// Inside a processing instruction.
    Pi,
    /// Inside a processing instruction, after `?`.
    PiQ,
    /// Inside an open tag, outside quotes.
    Tag,
    /// Inside a double-quoted attribute value.
    TagDq,
    /// Inside a single-quoted attribute value.
    TagSq,
    /// Inside an open tag, after `/`.
    TagSlash,
    /// Inside a close tag.
    Close,
    /// At a position where the reference parser must fail; nothing after it
    /// runs, so the scan stops counting.
    Stop,
}

/// One step of the nesting scan, mirroring the reference tokenizer byte for
/// byte: comments, CDATA, instructions and quoted attribute values hide the
/// bytes `<` and `>`; a raw `<` inside a tag, a `/` in a tag not followed by
/// `>`, and a `<!` that opens neither a comment nor CDATA make the parser
/// fail.
pub open spec fn scan_step(st: ScanState, b: u8) -> ScanState {
    match st {
        ScanState::Text => if b == 60u8 {
            ScanState::Lt
        } else {
            ScanState::Text
        },
        ScanState::Lt => if b == 33u8 {
            ScanState::Bang
        } else if b == 63u8 {
            ScanState::Pi
        } else if b == 47u8 {
            ScanState::Close
        } else if b == 62u8 || b == 60u8 {
            ScanState::Stop
        } else {
            ScanState::Tag
        },
        ScanState::Bang => if b == 45u8 {
            ScanState::Comm1
        } else if b == 91u8 {
            ScanState::CdC
        } else {
            ScanState::Stop
        },
        ScanState::Comm1 => if b == 45u8 {
            ScanState::Comment
        } else {
            ScanState::Stop
        },
        ScanState::Comment => if b == 45u8 {
            ScanState::CommDash
        } else {
            ScanState::Comment
        },
        ScanState::CommDash => if b == 45u8 {
            ScanState::CommDash2
        } else {
            ScanState::Comment
        },
        ScanState::CommDash2 => if b == 62u8 {
            ScanState::Text
        } else if b == 45u8 {
            ScanState::CommDash2
        } else {
            ScanState::Comment
        },
        ScanState::CdC => if b == 67u8 {
            ScanState::CdD
        } else {
            ScanState::Stop
        },
        ScanState::CdD => if b == 68u8 {
            ScanState::CdA1
        } else {
            ScanState::Stop
        },
        ScanState::CdA1 => if b == 65u8 {
            ScanState::CdT
        } else {
            ScanState::Stop
        },
        ScanState::CdT => if b == 84u8 {
            ScanState::CdA2
        } else {
            ScanState::Stop
        },
        ScanState::CdA2 => if b == 65u8 {
            ScanState::CdBr
        } else {
            ScanState::Stop
        },
        ScanState::CdBr => if b == 91u8 {
            ScanState::Cdata
        } else {
            ScanState::Stop
        },
        ScanState::Cdata => if b == 93u8 {
            ScanState::CdEnd1
        } else {
            ScanState::Cdata
        },
        ScanState::CdEnd1 => if b == 93u8 {
            ScanState::CdEnd2
        } else {
            ScanState::Cdata
        },
        ScanState::CdEnd2 => if b == 62u8 {
            ScanState::Text
        } else if b == 93u8 {
            ScanState::CdEnd2
        } else {
            ScanState::Cdata
        },
        ScanState::Pi => if b == 63u8 {
            ScanState::PiQ
        } else {
            ScanState::Pi
        },
        ScanState::PiQ => if b == 62u8 {
            ScanState::Text
        } else if b == 63u8 {
            ScanState::PiQ
        } else {
            ScanState::Pi
        },
        ScanState::Tag => if b == 62u8 {
            ScanState::Text
        } else if b == 47u8 {
            ScanState::TagSlash
        } else if b == 34u8 {
            ScanState::TagDq
        } else if b == 39u8 {
            ScanState::TagSq
        } else if b == 60u8 {
            ScanState::Stop
        } else {
            ScanState::Tag
        },
        ScanState::TagDq => if b == 34u8 {
            ScanState::Tag
        } else if b == 60u8 {
            ScanState::Stop
        } else {
            ScanState::TagDq
        },
        ScanState::TagSq => if b == 39u8 {
            ScanState::Tag
        } else if b == 60u8 {
            ScanState::Stop
        } else {
            ScanState::TagSq
        },
        ScanState::TagSlash => if b == 62u8 {
            ScanState::Text
        } else {
            ScanState::Stop
        },
        ScanState::Close => if b == 62u8 {
            ScanState::Text
        } else {
            ScanState::Close
        },
        ScanState::Stop => ScanState::Stop,
    }
}

/// The deepest nesting the scan reaches from position `i` on, starting in
/// state `st` at depth `d` with `m` the deepest seen so far: an open tag's
/// closing `>` descends one level, a close tag's `>` climbs one.
pub open spec fn scan_acc(bs: Seq<u8>, i: int, st: ScanState, d: nat, m: nat) -> nat
    decreases bs.len() - i,
{
    if i < 0 || i >= bs.len() {
        m
    } else {
        let b = bs[i];
        let st2 = scan_step(st, b);
        if st is Tag && b == 62u8 {
            scan_acc(
                bs,
                i + 1,
                st2,
                d + 1,
                if d + 1 > m {
                    d + 1
                } else {
                    m
                },
            )
        } else if st is Close && b == 62u8 {
            scan_acc(
                bs,
                i + 1,
                st2,
                if d > 0 {
                    (d - 1) as nat
                } else {
                    0
                },
                m,
            )
        } else {
            scan_acc(bs, i + 1, st2, d, m)
        }
    }
}

/// The deepest element nesting of the text, as the scan measures it.
pub open spec fn scan_depth(bs: Seq<u8>) -> nat {
    scan_acc(bs, 0, ScanState::Text, 0, 0)
}

fn step_state(st: ScanState, b: u8) -> (r: ScanState)
    ensures
        r == scan_step(st, b),
{
    match st {
        ScanState::Text => if b == 60u8 {
            ScanState::Lt
        } else {
            ScanState::Text
        },
        ScanState::Lt => if b == 33u8 {
            ScanState::Bang
        } else if b == 63u8 {
            ScanState::Pi
        } else if b == 47u8 {
            ScanState::Close
        } else if b == 62u8 || b == 60u8 {
            ScanState::Stop
        } else {
            ScanState::Tag
        },
        ScanState::Bang => if b == 45u8 {
            ScanState::Comm1
        } else if b == 91u8 {
            ScanState::CdC
        } else {
            ScanState::Stop
        },
        ScanState::Comm1 => if b == 45u8 {
            ScanState::Comment
        } else {
            ScanState::Stop
        },
        ScanState::Comment => if b == 45u8 {
            ScanState::CommDash
        } else {
            ScanState::Comment
        },
        ScanState::CommDash => if b == 45u8 {
            ScanState::CommDash2
        } else {
            ScanState::Comment
        },
        ScanState::CommDash2 => if b == 62u8 {
            ScanState::Text
        } else if b == 45u8 {
            ScanState::CommDash2
        } else {
            ScanState::Comment
        },
        ScanState::CdC => if b == 67u8 {
            ScanState::CdD
        } else {
            ScanState::Stop
        },
        ScanState::CdD => if b == 68u8 {
            ScanState::CdA1
        } else {
            ScanState::Stop
        },
        ScanState::CdA1 => if b == 65u8 {
            ScanState::CdT
        } else {
            ScanState::Stop
        },
        ScanState::CdT => if b == 84u8 {
            ScanState::CdA2
        } else {
            ScanState::Stop
        },
        ScanState::CdA2 => if b == 65u8 {
            ScanState::CdBr
        } else {
            ScanState::Stop
        },
        ScanState::CdBr => if b == 91u8 {
            ScanState::Cdata
        } else {
            ScanState::Stop
        },
        ScanState::Cdata => if b == 93u8 {
            ScanState::CdEnd1
        } else {
            ScanState::Cdata
        },
        ScanState::CdEnd1 => if b == 93u8 {
            ScanState::CdEnd2
        } else {
            ScanState::Cdata
        },
        ScanState::CdEnd2 => if b == 62u8 {
            ScanState::Text
        } else if b == 93u8 {
            ScanState::CdEnd2
        } else {
            ScanState::Cdata
        },
        ScanState::Pi => if b == 63u8 {
            ScanState::PiQ
        } else {
            ScanState::Pi
        },
        ScanState::PiQ => if b == 62u8 {
            ScanState::Text
        } else if b == 63u8 {
            ScanState::PiQ
        } else {
            ScanState::Pi
        },
        ScanState::Tag => if b == 62u8 {
            ScanState::Text
        } else if b == 47u8 {
            ScanState::TagSlash
        } else if b == 34u8 {
            ScanState::TagDq
        } else if b == 39u8 {
            ScanState::TagSq
        } else if b == 60u8 {
            ScanState::Stop
        } else {
            ScanState::Tag
        },
        ScanState::TagDq => if b == 34u8 {
            ScanState::Tag
        } else if b == 60u8 {
            ScanState::Stop
        } else {
            ScanState::TagDq
        },
        ScanState::TagSq => if b == 39u8 {
            ScanState::Tag
        } else if b == 60u8 {
            ScanState::Stop
        } else {
            ScanState::TagSq
        },
        ScanState::TagSlash => if b == 62u8 {
            ScanState::Text
        } else {
            ScanState::Stop
        },
        ScanState::Close => if b == 62u8 {
            ScanState::Text
        } else {
            ScanState::Close
        },
        ScanState::Stop => ScanState::Stop,
    }
}

/// Measures the deepest element nesting of the text.
fn max_nesting(s: &str) -> (m: usize)
    ensures
        m == scan_depth(s.spec_bytes()),
{
    let bs = s.as_bytes();
    let len = bs.len();
    let mut st = ScanState::Text;
    let mut d: usize = 0;
    let mut m: usize = 0;
    let mut i: usize = 0;
    while i < len
        invariant
            i <= len,
            d <= i,
            m <= i,
            len == bs@.len(),
            bs@ == s.spec_bytes(),
            scan_acc(bs@, i as int, st, d as nat, m as nat) == scan_depth(bs@),
        decreases len - i,
    {
        let b = bs[i];
        let opens = match st {
            ScanState::Tag => b == 62u8,
            _ => false,
        };
        let closes = match st {
            ScanState::Close => b == 62u8,
            _ => false,
        };
        st = step_state(st, b);
        if opens {
            d = d + 1;
            if d > m {
                m = d;
            }
        } else if closes {
            if d > 0 {
                d = d - 1;
            }
        }
        i = i + 1;
    }
    m
}

impl AccessionCodes {
    /// The identifier the record archive can be queried with, when no lookup
    /// is needed: experiment and run accessions are queryable as given; a
    /// sample accession needs the cross-reference lookup instead.
    pub fn direct_queryable(&self) -> (r: Option<String>)
        ensures
            match r {
                Some(q) => !(self is Gsm) && q@ == self.spec_orig(),
                None => self is Gsm,
            },
    {
        match self {
            AccessionCodes::Srx(a) => Some(a.acc.clone()),
            AccessionCodes::Srr(a) => Some(a.acc.clone()),
            AccessionCodes::Gsm(_) => None,
        }
    }
}

/// One node of the lookup response as plain values: its tag name, its
/// attributes in document order (local name and value), and its child nodes
/// in document order. A non-element node carries an empty tag and no
/// attributes; an element's tag is never empty.
pub struct XmlNode {
    /// The element's local tag name; empty for a non-element node.
    pub tag: String,
    /// The attributes, in document order: local name and value.
    pub attrs: Vec<(String, String)>,
    /// The child nodes, in document order.
    pub children: Vec<XmlNode>,
}

/// The mathematical value of an [`XmlNode`].
pub struct XmlNodeV {
    /// The element's local tag name; empty for a non-element node.
    pub tag: Seq<char>,
    /// The attributes, in document order: local name and value.
    pub attrs: Seq<(Seq<char>, Seq<char>)>,
    /// The child nodes, in document order.
    pub children: Seq<XmlNodeV>,
}

/// The attribute pairs as character sequences, in order.
pub open spec fn attrs_view(attrs: Seq<(String, String)>) -> Seq<(Seq<char>, Seq<char>)> {
    attrs.map_values(|a: (String, String)| (a.0@, a.1@))
}

/// The mathematical value of one node.
pub open spec fn xml_view(n: XmlNode) -> XmlNodeV
    decreases n,
{
    XmlNodeV {
        tag: n.tag@,
        attrs: attrs_view(n.attrs@),
        children: xml_children_view(n.children@),
    }
}

/// The mathematical values of a node sequence, in order.
pub open spec fn xml_children_view(cs: Seq<XmlNode>) -> Seq<XmlNodeV>
    decreases cs,
{
    if cs.len() == 0 {
        Seq::empty()
    } else {
        seq![xml_view(cs[0])] + xml_children_view(cs.subrange(1, cs.len() as int))
    }
}

/// A node sequence and its value sequence correspond element for element.
pub proof fn lemma_xml_children_view(cs: Seq<XmlNode>)
    ensures
        xml_children_view(cs).len() == cs.len(),
        forall|i: int|
            0 <= i < cs.len() ==> #[trigger] xml_children_view(cs)[i] == xml_view(cs[i]),
    decreases cs,
{
    if cs.len() > 0 {
        let tail = cs.subrange(1, cs.len() as int);
        lemma_xml_children_view(tail);
        assert forall|i: int|
            0 <= i < cs.len() implies #[trigger] xml_children_view(cs)[i] == xml_view(cs[i]) by {
            if i > 0 {
                assert(xml_children_view(cs)[i] == xml_children_view(tail)[i - 1]);
                assert(tail[i - 1] == cs[i]);
            }
        }
    }
}

impl View for XmlNode {
    type V = XmlNodeV;

    open spec fn view(&self) -> XmlNodeV {
        xml_view(*self)
    }
}

/// The number of nodes in a tree.
spec fn xml_size(n: XmlNodeV) -> nat
    decreases n,
{
    1 + xml_list_size(n.children)
}

/// The number of nodes in the trees of a sequence, together.
spec fn xml_list_size(cs: Seq<XmlNodeV>) -> nat
    decreases cs,
{
    if cs.len() == 0 {
        0
    } else {
        xml_size(cs[0]) + xml_list_size(cs.subrange(1, cs.len() as int))
    }
}

proof fn lemma_xml_list_size_concat(a: Seq<XmlNodeV>, b: Seq<XmlNodeV>)
    ensures
        xml_list_size(a + b) == xml_list_size(a) + xml_list_size(b),
    decreases a.len(),
{
    if a.len() == 0 {
        assert(a + b =~= b);
    } else {
        let tail = a.subrange(1, a.len() as int);
        assert((a + b)[0] == a[0]);
        assert((a + b).subrange(1, (a + b).len() as int) =~= tail + b);
        lemma_xml_list_size_concat(tail, b);
    }
}

proof fn lemma_xml_children_view_concat(a: Seq<XmlNode>, b: Seq<XmlNode>)
    ensures
        xml_children_view(a + b) == xml_children_view(a) + xml_children_view(b),
    decreases a.len(),
{
    if a.len() == 0 {
        assert(a + b =~= b);
        assert(xml_children_view(a) + xml_children_view(b) =~= xml_children_view(b));
    } else {
        let tail = a.subrange(1, a.len() as int);
        assert((a + b)[0] == a[0]);
        assert((a + b).subrange(1, (a + b).len() as int) =~= tail + b);
        lemma_xml_children_view_concat(tail, b);
        assert(seq![xml_view(a[0])] + (xml_children_view(tail) + xml_children_view(b)) =~= (seq![
            xml_view(a[0]),
        ] + xml_children_view(tail)) + xml_children_view(b));
    }
}

/// Tears a converted tree down with a work list on the heap, so that the
/// document's nesting depth does not bound the call stack when the tree is
/// freed: every node is emptied of its children before it is dropped.
fn dispose_tree(root: XmlNode) {
    let mut work: Vec<XmlNode> = Vec::new();
    work.push(root);
    while work.len() > 0
        decreases xml_list_size(xml_children_view(work@)),
    {
        let ghost before = work@;
        let mut n = work.pop().unwrap();
        let ghost kids = n.children@;
        work.append(&mut n.children);
        proof {
            assert(before =~= before.drop_last().push(before.last()));
            assert(before.drop_last().push(before.last()) =~= before.drop_last() + seq![
                before.last(),
            ]);
            lemma_xml_children_view_concat(before.drop_last(), seq![before.last()]);
            let single = seq![before.last()];
            assert(single.subrange(1, 1) =~= Seq::<XmlNode>::empty());
            assert(xml_children_view(Seq::<XmlNode>::empty()) =~= Seq::<XmlNodeV>::empty());
            assert(xml_children_view(single) =~= seq![xml_view(before.last())] + Seq::<
                XmlNodeV,
            >::empty());
            assert(xml_children_view(single) =~= seq![xml_view(before.last())]);
            lemma_xml_list_size_concat(
                xml_children_view(before.drop_last()),
                seq![xml_view(before.last())],
            );
            let sv = seq![xml_view(before.last())];
            assert(sv.subrange(1, 1) =~= Seq::<XmlNodeV>::empty());
            assert(xml_list_size(Seq::<XmlNodeV>::empty()) == 0);
            assert(xml_list_size(sv) == xml_size(xml_view(before.last())));
            lemma_xml_children_view_concat(before.drop_last(), kids);
            lemma_xml_list_size_concat(
                xml_children_view(before.drop_last()),
                xml_children_view(kids),
            );
            assert(xml_view(before.last()).children == xml_children_view(kids));
        }
    }
}

/// What the reference XML parser yields for `s`: the parsed document's root
/// element as a plain-value tree, or nothing when `s` is not a well-formed
/// document. The parse depends on the text alone.
pub uninterp spec fn xml_of(s: Seq<char>) -> Option<XmlNodeV>;

/// Relies on `roxmltree::Node::tag_name` (the empty name for a non-element)
/// and `Node::attributes` (document order; `Attribute::name` is the local
/// name): one node moved field for field into the plain-value tree, its child
/// list still to be filled.
#[verifier::external_body]
fn convert_shell<'a, 'input>(n: &roxmltree::Node<'a, 'input>) -> XmlNode {
    XmlNode {
        tag: n.tag_name().name().to_string(),
        attrs: n.attributes().map(|a| (a.name().to_string(), a.value().to_string())).collect(),
        children: Vec::new(),
    }
}

/// Relies on `roxmltree::Node::first_child`, `Node::next_sibling` and
/// `Node::parent`: the node's subtree moved node for node into the
/// plain-value tree, children in document order. The walk keeps its own stack
/// on the heap, so the document's nesting depth does not bound the call
/// stack.
#[verifier::external_body]
fn convert_node<'a, 'input>(root: &roxmltree::Node<'a, 'input>) -> XmlNode {
    let (mut stack, mut cur) = (vec![convert_shell(root)], *root);
    loop {
        if let Some(c) = cur.first_child() {
            stack.push(convert_shell(&c)); cur = c; continue;
        }
        loop {
            let done = stack.pop().unwrap();
            match stack.last_mut() { Some(p) => p.children.push(done), None => return done }
            if let Some(s) = cur.next_sibling() { stack.push(convert_shell(&s)); cur = s; break; }
            cur = cur.parent().unwrap();
        }
    }
}

/// Relies on `roxmltree::Document::parse` and `Document::root_element` (a
/// parsed document always has a root element): the root element of the parsed
/// document, converted into the plain-value tree that [`xml_of`] names, or
/// nothing when the text does not parse. The parser recurses once per nested
/// element of its one stream and nowhere else: it refuses a document type
/// declaration before any descent, so no entity can smuggle elements in, and
/// it fails outright wherever the nesting scan stops counting; the bound
/// below therefore keeps its recursion within any default thread stack.
#[verifier::external_body]
fn parse_xml_tree(text: &str) -> (r: Option<XmlNode>)
    requires
        scan_depth(text.spec_bytes()) <= DEPTH_LIMIT,
    ensures
        match r {
            Some(root) => xml_of(text@) == Some(root@),
            None => xml_of(text@) is None,
        },
{
    roxmltree::Document::parse(text).ok().map(|doc| convert_node(&doc.root_element()))
}

#[verifier::external_type_specification]
#[verifier::external_body]
pub struct ExNode<'a, 'input: 'a>(roxmltree::Node<'a, 'input>);

/// One relation child of the sample element, as plain values: its `type`
/// attribute and its `target` attribute.
#[derive(Debug, Clone)]
pub struct Relation {
    /// The relation's `type` attribute.
    pub rel_type: String,
    /// The relation's `target` attribute.
    pub target: String,
}

/// The mathematical value of a [`Relation`].
pub struct RelationV {
    /// The relation's `type` attribute.
    pub rel_type: Seq<char>,
    /// The relation's `target` attribute.
    pub target: Seq<char>,
}

impl View for Relation {
    type V = RelationV;

    open spec fn view(&self) -> RelationV {
        RelationV { rel_type: self.rel_type@, target: self.target@ }
    }
}

/// The relations as plain values, in order.
pub open spec fn rels_view(rels: Seq<Relation>) -> Seq<RelationV> {
    rels.map_values(|x: Relation| x@)
}

/// The first node with the given tag, if any.
pub open spec fn first_tagged(nodes: Seq<XmlNodeV>, tag: Seq<char>) -> Option<XmlNodeV>
    decreases nodes.len(),
{
    if nodes.len() == 0 {
        None
    } else if nodes[0].tag == tag {
        Some(nodes[0])
    } else {
        first_tagged(nodes.skip(1), tag)
    }
}

/// The value of the first attribute with the given local name, if any.
pub open spec fn attr_of(attrs: Seq<(Seq<char>, Seq<char>)>, name: Seq<char>) -> Option<Seq<char>>
    decreases attrs.len(),
{
    if attrs.len() == 0 {
        None
    } else if attrs[0].0 == name {
        Some(attrs[0].1)
    } else {
        attr_of(attrs.skip(1), name)
    }
}

/// The `Relation`-tagged nodes as plain relations, in document order, or
/// nothing when one of them lacks its type or target attribute.
pub open spec fn relations_of(nodes: Seq<XmlNodeV>) -> Option<Seq<RelationV>>
    decreases nodes.len(),
{
    if nodes.len() == 0 {
        Some(Seq::empty())
    } else {
        let rest = relations_of(nodes.skip(1));
        if nodes[0].tag == "Relation"@ {
            match (attr_of(nodes[0].attrs, "type"@), attr_of(nodes[0].attrs, "target"@)) {
                (Some(t), Some(g)) => match rest {
                    Some(rs) => Some(seq![RelationV { rel_type: t, target: g }] + rs),
                    None => None,
                },
                _ => None,
            }
        } else {
            rest
        }
    }
}

/// The target of the first relation whose type marks it as an archive
/// cross-reference, if any.
pub open spec fn spec_pick_sra(rels: Seq<RelationV>) -> Option<Seq<char>>
    decreases rels.len(),
{
    if rels.len() == 0 {
        None
    } else if rels[0].rel_type == "SRA"@ {
        Some(rels[0].target)
    } else {
        spec_pick_sra(rels.skip(1))
    }
}

/// What resolution returns for a parsed lookup response: an unparseable
/// response is a structural fault; so is a relation of the sample element
/// that lacks its type or target attribute; otherwise the result is the first
/// embedded experiment code of the first `SRA`-typed relation's target, and
/// the legitimate "no cross-reference exists" outcome -- no sample element,
/// no `SRA` relation, or no embedded code -- is a success without a code.
pub open spec fn spec_resolve(doc: Option<XmlNodeV>) -> Result<Option<Seq<char>>, ResolveError> {
    match doc {
        None => Err(ResolveError::MalformedDocument),
        Some(root) => match first_tagged(root.children, "Sample"@) {
            None => Ok(None),
            Some(sample) => match relations_of(sample.children) {
                None => Err(ResolveError::MissingAttribute),
                Some(rels) => Ok(
                    match spec_pick_sra(rels) {
                        Some(target) => srx_find(target),
                        None => None,
                    },
                ),
            },
        },
    }
}

/// The index of the first node with the given tag.
fn find_tagged(nodes: &Vec<XmlNode>, tag: &str) -> (r: Option<usize>)
    ensures
        ({
            let nv = xml_children_view(nodes@);
            match r {
                Some(i) => i < nodes@.len() && first_tagged(nv, tag@) == Some(nv[i as int]),
                None => first_tagged(nv, tag@) is None,
            }
        }),
{
    let ghost nv = xml_children_view(nodes@);
    let want: String = tag.to_owned();
    let mut i: usize = 0;
    proof {
        lemma_xml_children_view(nodes@);
        assert(nv.skip(0) =~= nv);
    }
    while i < nodes.len()
        invariant
            i <= nodes.len(),
            nv == xml_children_view(nodes@),
            want@ == tag@,
            first_tagged(nv, tag@) == first_tagged(nv.skip(i as int), tag@),
        decreases nodes.len() - i,
    {
        proof {
            lemma_xml_children_view(nodes@);
            assert(nv.skip(i as int)[0] == nv[i as int]);
            assert(nv.skip(i as int).skip(1) =~= nv.skip(i + 1));
        }
        let node = &nodes[i];
        if node.tag == want {
            return Some(i);
        }
        i = i + 1;
    }
    None
}

/// The value of the first attribute with the given local name.
fn attr_value(attrs: &Vec<(String, String)>, name: &str) -> (r: Option<String>)
    ensures
        ({
            let av = attrs_view(attrs@);
            match r {
                Some(v) => attr_of(av, name@) == Some(v@),
                None => attr_of(av, name@) is None,
            }
        }),
{
    let ghost av = attrs_view(attrs@);
    let want: String = name.to_owned();
    let mut i: usize = 0;
    proof {
        assert(av.skip(0) =~= av);
    }
    while i < attrs.len()
        invariant
            i <= attrs.len(),
            av == attrs_view(attrs@),
            want@ == name@,
            attr_of(av, name@) == attr_of(av.skip(i as int), name@),
        decreases attrs.len() - i,
    {
        proof {
            assert(av.skip(i as int)[0] == av[i as int]);
            assert(av.skip(i as int).skip(1) =~= av.skip(i + 1));
        }
        let attr = &attrs[i];
        if attr.0 == want {
            return Some(attr.1.clone());
        }
        i = i + 1;
    }
    None
}

/// The `Relation`-tagged children as plain relations, in document order; a
/// relation lacking its type or target attribute is a structural fault.
fn collect_relations(nodes: &Vec<XmlNode>) -> (r: Result<Vec<Relation>, ResolveError>)
    ensures
        ({
            let nv = xml_children_view(nodes@);
            match r {
                Ok(rels) => relations_of(nv) == Some(rels_view(rels@)),
                Err(e) => e == ResolveError::MissingAttribute && relations_of(nv) is None,
            }
        }),
{
    let ghost nv = xml_children_view(nodes@);
    let want: String = "Relation".to_owned();
    let mut rels: Vec<Relation> = Vec::new();
    let mut i: usize = 0;
    proof {
        lemma_xml_children_view(nodes@);
        assert(nv.skip(0) =~= nv);
        assert(rels_view(rels@) =~= Seq::<RelationV>::empty());
    }
    while i < nodes.len()
        invariant
            i <= nodes.len(),
            nv == xml_children_view(nodes@),
            want@ == "Relation"@,
            relations_of(nv) == (match relations_of(nv.skip(i as int)) {
                Some(rest) => Some(rels_view(rels@) + rest),
                None => None::<Seq<RelationV>>,
            }),
        decreases nodes.len() - i,
    {
        proof {
            lemma_xml_children_view(nodes@);
            assert(nv.skip(i as int)[0] == nv[i as int]);
            assert(nv.skip(i as int).skip(1) =~= nv.skip(i + 1));
        }
        let node = &nodes[i];
        if node.tag == want {
            let t = attr_value(&node.attrs, "type");
            let g = attr_value(&node.attrs, "target");
            match (t, g) {
                (Some(rel_type), Some(target)) => {
                    let ghost old_rels = rels_view(rels@);
                    let rel = Relation { rel_type, target };
                    let ghost relv = rel@;
                    rels.push(rel);
                    proof {
                        assert(rels_view(rels@) =~= old_rels + seq![relv]);
                        if relations_of(nv.skip(i + 1)) is Some {
                            let rest = relations_of(nv.skip(i + 1))->Some_0;
                            assert(relations_of(nv.skip(i as int)) == Some(seq![relv] + rest));
                            assert((old_rels + seq![relv]) + rest =~= old_rels + (seq![relv]
                                + rest));
                        } else {
                            assert(relations_of(nv.skip(i as int)) is None);
                        }
                    }
                },
                _ => {
                    proof {
                        assert(relations_of(nv.skip(i as int)) is None);
                    }
                    return Err(ResolveError::MissingAttribute);
                },
            }
        }
        i = i + 1;
    }
    proof {
        assert(nv.skip(nodes@.len() as int) =~= Seq::<XmlNodeV>::empty());
        assert(relations_of(Seq::<XmlNodeV>::empty()) == Some(Seq::<RelationV>::empty()));
        assert(rels_view(rels@) + Seq::<RelationV>::empty() =~= rels_view(rels@));
    }
    Ok(rels)
}

/// Picks the first relation whose type is `SRA` and returns its target.
pub fn pick_sra_target(rels: &Vec<Relation>) -> (r: Option<String>)
    ensures
        match r {
            Some(t) => spec_pick_sra(rels_view(rels@)) == Some(t@),
            None => spec_pick_sra(rels_view(rels@)) is None,
        },
{
    let ghost rv = rels_view(rels@);
    let sra: String = "SRA".to_owned();
    let mut i: usize = 0;
    proof {
        assert(rv.skip(0) =~= rv);
    }
    while i < rels.len()
        invariant
            i <= rels.len(),
            rv == rels_view(rels@),
            sra@ == "SRA"@,
            spec_pick_sra(rv) == spec_pick_sra(rv.skip(i as int)),
        decreases rels.len() - i,
    {
        proof {
            assert(rv.skip(i as int)[0] == rv[i as int]);
            assert(rv.skip(i as int).skip(1) =~= rv.skip(i + 1));
        }
        if rels[i].rel_type == sra {
            return Some(rels[i].target.clone());
        }
        i = i + 1;
    }
    None
}

/// Whether `c` is an ASCII decimal digit.
pub open spec fn is_digit(c: char) -> bool {
    '0' <= c && c <= '9'
}

/// An experiment-code pattern starts at `i`: the three-letter prefix followed
/// by at least one digit.
pub open spec fn srx_at(s: Seq<char>, i: int) -> bool {
    &&& 0 <= i
    &&& i + 4 <= s.len()
    &&& s[i] == 'S'
    &&& s[i + 1] == 'R'
    &&& s[i + 2] == 'X'
    &&& is_digit(s[i + 3])
}

/// The first position at or after `i` that is past the end of `s` or holds a
/// non-digit.
pub open spec fn digits_end(s: Seq<char>, i: int) -> int
    decreases s.len() - i,
{
    if i < 0 || i >= s.len() {
        s.len() as int
    } else if is_digit(s[i]) {
        digits_end(s, i + 1)
    } else {
        i
    }
}

/// The first embedded experiment code at or after position `i`: the pattern
/// starting at the leftmost position where it matches, its digit run taken
/// maximally.
pub open spec fn srx_find_from(s: Seq<char>, i: int) -> Option<Seq<char>>
    decreases s.len() - i,
{
    if i < 0 || i + 4 > s.len() {
        None
    } else if srx_at(s, i) {
        Some(s.subrange(i, digits_end(s, i + 3)))
    } else {
        srx_find_from(s, i + 1)
    }
}

/// The first embedded experiment code in `s`, if any.
pub open spec fn srx_find(s: Seq<char>) -> Option<Seq<char>> {
    srx_find_from(s, 0)
}

/// The shape of an extracted experiment code: the three-letter prefix
/// followed by one or more digits and nothing else.
pub open spec fn is_experiment_code(s: Seq<char>) -> bool {
    &&& s.len() >= 4
    &&& s[0] == 'S'
    &&& s[1] == 'R'
    &&& s[2] == 'X'
    &&& forall|j: int| 3 <= j < s.len() ==> is_digit(#[trigger] s[j])
}

proof fn lemma_digits_end(s: Seq<char>, i: int)
    requires
        0 <= i <= s.len(),
    ensures
        i <= digits_end(s, i) <= s.len(),
        forall|j: int| i <= j < digits_end(s, i) ==> is_digit(#[trigger] s[j]),
    decreases s.len() - i,
{
    if i < s.len() && is_digit(s[i]) {
        lemma_digits_end(s, i + 1);
    }
}

proof fn lemma_srx_find_from_shape(s: Seq<char>, i: int)
    requires
        0 <= i,
    ensures
        srx_find_from(s, i) matches Some(m) ==> is_experiment_code(m),
    decreases s.len() - i,
{
    if i + 4 > s.len() {
    } else if srx_at(s, i) {
        lemma_digits_end(s, i + 3);
        let de = digits_end(s, i + 3);
        assert(digits_end(s, i + 3) == digits_end(s, i + 4));
        lemma_digits_end(s, i + 4);
        let m = s.subrange(i, de);
        assert(m.len() >= 4);
        assert(m[0] == 'S' && m[1] == 'R' && m[2] == 'X');
        assert(forall|j: int| 3 <= j < m.len() ==> is_digit(#[trigger] m[j])) by {
            assert(forall|j: int| 3 <= j < m.len() ==> m[j] == s[i + j] && is_digit(
                #[trigger] s[i + j],
            ));
        }
    } else {
        lemma_srx_find_from_shape(s, i + 1);
    }
}

/// Any code that [`srx_find`] yields has the experiment-code shape.
pub proof fn lemma_srx_find_shape(s: Seq<char>)
    ensures
        srx_find(s) matches Some(m) ==> is_experiment_code(m),
{
    lemma_srx_find_from_shape(s, 0);
}

/// Relies on `regex::Regex::find` with the fixed pattern `SRX[0-9]+`: the
/// match starts at the leftmost position where the pattern can match, and the
/// `+` repetition greedily takes every following ASCII digit. Compiling this
/// fixed, valid pattern cannot fail.
#[verifier::external_body]
fn find_srx(s: &str) -> (r: Option<String>)
    ensures
        match r {
            Some(m) => srx_find(s@) == Some(m@),
            None => srx_find(s@) is None,
        },
{
    regex::Regex::new("SRX[0-9]+").unwrap().find(s).map(|m| m.as_str().to_owned())
}

/// Extracts the first embedded experiment code: the three-letter prefix
/// followed by its maximal run of digits, at the leftmost position where the
/// pattern occurs.
pub fn extract_experiment_code(s: &str) -> (r: Option<String>)
    ensures
        match r {
            Some(m) => srx_find(s@) == Some(m@) && is_experiment_code(m@),
            None => srx_find(s@) is None,
        },
{
    let r = find_srx(s);
    proof {
        lemma_srx_find_shape(s@);
    }
    r
}

/// Searches the sample-lookup response for the sample's archive
/// cross-reference and extracts the embedded experiment code, exactly as
/// [`spec_resolve`] says of the parsed document.
///
/// `Ok(None)` is the legitimate "no cross-reference exists" outcome: no
/// sample element, no relation of type `SRA`, or no embedded code in its
/// target. A structurally faulty response is an error instead: text that
/// nests elements deeper than [`DEPTH_LIMIT`], text that does not parse, or
/// a relation lacking its type or target attribute.
pub fn resolve_sample_response(xml: &str) -> (r: Result<Option<String>, ResolveError>)
    ensures
        ({
            let expected = if scan_depth(xml.spec_bytes()) > DEPTH_LIMIT {
                Err(ResolveError::ExcessiveNesting)
            } else {
                spec_resolve(xml_of(xml@))
            };
            match r {
                Ok(Some(code)) => expected == Ok::<Option<Seq<char>>, ResolveError>(Some(code@))
                    && is_experiment_code(code@),
                Ok(None) => expected == Ok::<Option<Seq<char>>, ResolveError>(None),
                Err(e) => expected == Err::<Option<Seq<char>>, ResolveError>(e),
            }
        }),
{
    if max_nesting(xml) > DEPTH_LIMIT {
        return Err(ResolveError::ExcessiveNesting);
    }
    let root = match parse_xml_tree(xml) {
        Some(root) => root,
        None => {
            return Err(ResolveError::MalformedDocument);
        },
    };
    proof {
        assert(root@.children == xml_children_view(root.children@));
    }
    let outcome: Result<Option<String>, ResolveError> = match find_tagged(
        &root.children,
        "Sample",
    ) {
        None => Ok(None),
        Some(si) => {
            let sample = &root.children[si];
            proof {
                lemma_xml_children_view(root.children@);
                assert(xml_children_view(root.children@)[si as int] == sample@);
                assert(sample@.children == xml_children_view(sample.children@));
            }
            match collect_relations(&sample.children) {
                Err(e) => Err(e),
                Ok(rels) => match pick_sra_target(&rels) {
                    Some(target) => match extract_experiment_code(target.as_str()) {
                        Some(code) => Ok(Some(code)),
                        None => Ok(None),
                    },
                    None => Ok(None),
                },
            }
        },
    };
    dispose_tree(root);
    outcome
}

} // verus!
