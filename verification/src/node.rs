use vstd::prelude::*;

verus! {

/// The element tags that compiled pages use.
#[derive(Clone, Copy, PartialEq, Eq, Structural, Debug)]
pub enum Tag {
    Template,
    Div,
    Span,
    Img,
    A,
    Svg,
    Use,
    Hr,
    Br,
    P,
    B,
    I,
    H1,
    H2,
    H3,
    H4,
    H5,
}

/// The attribute keys that compiled pages use.
#[derive(Clone, Copy, PartialEq, Eq, Structural, Debug)]
pub enum AttrKey {
    Class,
    Id,
    Src,
    Alt,
    Href,
    Target,
    Onclick,
    Style,
}

pub open spec fn tag_name(t: Tag) -> Seq<char> {
    match t {
        Tag::Template => "template"@,
        Tag::Div => "div"@,
        Tag::Span => "span"@,
        Tag::Img => "img"@,
        Tag::A => "a"@,
        Tag::Svg => "svg"@,
        Tag::Use => "use"@,
        Tag::Hr => "hr"@,
        Tag::Br => "br"@,
        Tag::P => "p"@,
        Tag::B => "b"@,
        Tag::I => "i"@,
        Tag::H1 => "h1"@,
        Tag::H2 => "h2"@,
        Tag::H3 => "h3"@,
        Tag::H4 => "h4"@,
        Tag::H5 => "h5"@,
    }
}

pub open spec fn attr_key_name(k: AttrKey) -> Seq<char> {
    match k {
        AttrKey::Class => "class"@,
        AttrKey::Id => "id"@,
        AttrKey::Src => "src"@,
        AttrKey::Alt => "alt"@,
        AttrKey::Href => "href"@,
        AttrKey::Target => "target"@,
        AttrKey::Onclick => "onclick"@,
        AttrKey::Style => "style"@,
    }
}

impl Tag {
    pub fn as_name(&self) -> (r: &'static str)
        ensures
            r@ == tag_name(*self),
    {
        match self {
            Tag::Template => "template",
            Tag::Div => "div",
            Tag::Span => "span",
            Tag::Img => "img",
            Tag::A => "a",
            Tag::Svg => "svg",
            Tag::Use => "use",
            Tag::Hr => "hr",
            Tag::Br => "br",
            Tag::P => "p",
            Tag::B => "b",
            Tag::I => "i",
            Tag::H1 => "h1",
            Tag::H2 => "h2",
            Tag::H3 => "h3",
            Tag::H4 => "h4",
            Tag::H5 => "h5",
        }
    }
}

impl AttrKey {
    pub fn as_name(&self) -> (r: &'static str)
        ensures
            r@ == attr_key_name(*self),
    {
        match self {
            AttrKey::Class => "class",
            AttrKey::Id => "id",
            AttrKey::Src => "src",
            AttrKey::Alt => "alt",
            AttrKey::Href => "href",
            AttrKey::Target => "target",
            AttrKey::Onclick => "onclick",
            AttrKey::Style => "style",
        }
    }
}

/// An HTML tree: an element with a tag, ordered attributes and ordered
/// children, or a raw text leaf (escaped only on serialization).
#[derive(Debug)]
pub enum Node {
    Element { tag: Tag, attrs: Vec<(AttrKey, String)>, children: Vec<Node> },
    Text { text: String },
}

/// The mathematical model of a `Node`.
#[verifier::ext_equal]
pub enum NodeV {
    Element { tag: Tag, attrs: Seq<(AttrKey, Seq<char>)>, children: Seq<NodeV> },
    Text { text: Seq<char> },
}

pub open spec fn attrs_view(attrs: Seq<(AttrKey, String)>) -> Seq<(AttrKey, Seq<char>)> {
    Seq::new(attrs.len(), |i: int| (attrs[i].0, attrs[i].1@))
}

pub open spec fn node_view(n: Node) -> NodeV
    decreases n,
{
    match n {
        Node::Element { tag, attrs, children } => NodeV::Element {
            tag,
            attrs: attrs_view(attrs@),
            children: nodes_view(children@),
        },
        Node::Text { text } => NodeV::Text { text: text@ },
    }
}

pub open spec fn nodes_view(s: Seq<Node>) -> Seq<NodeV>
    decreases s,
{
    if s.len() == 0 {
        Seq::empty()
    } else {
        seq![node_view(s[0])] + nodes_view(s.drop_first())
    }
}

impl View for Node {
    type V = NodeV;

    open spec fn view(&self) -> NodeV {
        node_view(*self)
    }
}

pub proof fn lemma_nodes_view_len(s: Seq<Node>)
    ensures
        nodes_view(s).len() == s.len(),
    decreases s,
{
    if s.len() != 0 {
        lemma_nodes_view_len(s.drop_first());
    }
}

pub proof fn lemma_nodes_view_index(s: Seq<Node>, i: int)
    requires
        0 <= i < s.len(),
    ensures
        nodes_view(s).len() == s.len(),
        nodes_view(s)[i] == node_view(s[i]),
    decreases s,
{
    lemma_nodes_view_len(s);
    if i > 0 {
        lemma_nodes_view_index(s.drop_first(), i - 1);
    }
}

pub broadcast proof fn lemma_nodes_view_len_auto(s: Seq<Node>)
    ensures
        #[trigger] nodes_view(s).len() == s.len(),
{
    lemma_nodes_view_len(s);
}

pub broadcast proof fn lemma_nodes_view_index_auto(s: Seq<Node>, i: int)
    ensures
        0 <= i < s.len() ==> #[trigger] nodes_view(s)[i] == node_view(s[i]),
{
    if 0 <= i < s.len() {
        lemma_nodes_view_index(s, i);
    }
}

pub proof fn lemma_nodes_view_concat(a: Seq<Node>, b: Seq<Node>)
    ensures
        nodes_view(a + b) == nodes_view(a) + nodes_view(b),
{
    lemma_nodes_view_len(a);
    lemma_nodes_view_len(b);
    lemma_nodes_view_len(a + b);
    assert forall|i: int| 0 <= i < a.len() + b.len() implies #[trigger] nodes_view(a + b)[i] == (
    nodes_view(a) + nodes_view(b))[i] by {
        lemma_nodes_view_index(a + b, i);
        if i < a.len() {
            lemma_nodes_view_index(a, i);
            assert((a + b)[i] == a[i]);
        } else {
            lemma_nodes_view_index(b, i - a.len());
            assert((a + b)[i] == b[i - a.len()]);
        }
    }
    assert(nodes_view(a + b) =~= nodes_view(a) + nodes_view(b));
}

pub proof fn lemma_nodes_view_push(s: Seq<Node>, x: Node)
    ensures
        nodes_view(s.push(x)) == nodes_view(s).push(node_view(x)),
    decreases s,
{
    let t = s.push(x);
    if s.len() == 0 {
        assert(t[0] == x);
        assert(t.drop_first() =~= Seq::<Node>::empty());
        assert(nodes_view(t.drop_first()) == Seq::<NodeV>::empty());
        assert(nodes_view(t) == seq![node_view(x)] + Seq::<NodeV>::empty());
        assert(nodes_view(s) == Seq::<NodeV>::empty());
        assert(nodes_view(t) =~= nodes_view(s).push(node_view(x)));
    } else {
        assert(t[0] == s[0]);
        assert(t.drop_first() =~= s.drop_first().push(x));
        lemma_nodes_view_push(s.drop_first(), x);
        assert(nodes_view(t) == seq![node_view(s[0])] + (nodes_view(s.drop_first()).push(
            node_view(x),
        )));
        assert(nodes_view(t) =~= nodes_view(s).push(node_view(x)));
    }
}

/// How one character is escaped inside text content or an attribute value.
pub open spec fn escape_char(c: char) -> Seq<char> {
    if c == '&' {
        "&amp;"@
    } else if c == '<' {
        "&lt;"@
    } else if c == '>' {
        "&gt;"@
    } else if c == '"' {
        "&quot;"@
    } else {
        seq![c]
    }
}

pub open spec fn escape_text(s: Seq<char>) -> Seq<char>
    decreases s.len(),
{
    if s.len() == 0 {
        Seq::empty()
    } else {
        escape_char(s[0]) + escape_text(s.drop_first())
    }
}

pub proof fn lemma_escape_text_push(s: Seq<char>, x: char)
    ensures
        escape_text(s.push(x)) == escape_text(s) + escape_char(x),
    decreases s.len(),
{
    let t = s.push(x);
    if s.len() == 0 {
        assert(t[0] == x);
        assert(t.drop_first() =~= Seq::<char>::empty());
        assert(escape_text(t.drop_first()) == Seq::<char>::empty());
        assert(escape_text(t) == escape_char(x) + Seq::<char>::empty());
        assert(escape_text(s) == Seq::<char>::empty());
        assert(escape_text(t) =~= escape_text(s) + escape_char(x));
    } else {
        assert(t[0] == s[0]);
        assert(t.drop_first() =~= s.drop_first().push(x));
        lemma_escape_text_push(s.drop_first(), x);
        assert(escape_text(t) == escape_char(s[0]) + (escape_text(s.drop_first()) + escape_char(
            x,
        )));
        assert(escape_text(t) =~= escape_text(s) + escape_char(x));
    }
}

/// How one attribute is serialized: a space, the key, `="`, the escaped value, `"`.
pub open spec fn spec_render_attr(a: (AttrKey, Seq<char>)) -> Seq<char> {
    " "@ + attr_key_name(a.0) + "=\""@ + escape_text(a.1) + "\""@
}

pub open spec fn spec_render_attrs(attrs: Seq<(AttrKey, Seq<char>)>) -> Seq<char>
    decreases attrs.len(),
{
    if attrs.len() == 0 {
        Seq::empty()
    } else {
        spec_render_attr(attrs[0]) + spec_render_attrs(attrs.drop_first())
    }
}

pub proof fn lemma_render_attrs_push(s: Seq<(AttrKey, Seq<char>)>, x: (AttrKey, Seq<char>))
    ensures
        spec_render_attrs(s.push(x)) == spec_render_attrs(s) + spec_render_attr(x),
    decreases s.len(),
{
    let t = s.push(x);
    if s.len() == 0 {
        assert(t[0] == x);
        assert(t.drop_first() =~= Seq::<(AttrKey, Seq<char>)>::empty());
        assert(spec_render_attrs(t.drop_first()) == Seq::<char>::empty());
        assert(spec_render_attrs(t) == spec_render_attr(x) + Seq::<char>::empty());
        assert(spec_render_attrs(s) == Seq::<char>::empty());
        assert(spec_render_attrs(t) =~= spec_render_attrs(s) + spec_render_attr(x));
    } else {
        assert(t[0] == s[0]);
        assert(t.drop_first() =~= s.drop_first().push(x));
        lemma_render_attrs_push(s.drop_first(), x);
        assert(spec_render_attrs(t) == spec_render_attr(s[0]) + (spec_render_attrs(
            s.drop_first(),
        ) + spec_render_attr(x)));
        assert(spec_render_attrs(t) =~= spec_render_attrs(s) + spec_render_attr(x));
    }
}

/// How a whole tree is serialized to markup text.
pub open spec fn spec_render(n: NodeV) -> Seq<char>
    decreases n,
{
    match n {
        NodeV::Text { text } => escape_text(text),
        NodeV::Element { tag, attrs, children } => "<"@ + tag_name(tag) + spec_render_attrs(attrs)
            + ">"@ + spec_render_nodes(children) + "</"@ + tag_name(tag) + ">"@,
    }
}

pub open spec fn spec_render_nodes(s: Seq<NodeV>) -> Seq<char>
    decreases s,
{
    if s.len() == 0 {
        Seq::empty()
    } else {
        spec_render(s[0]) + spec_render_nodes(s.drop_first())
    }
}

pub proof fn lemma_render_nodes_push(s: Seq<NodeV>, x: NodeV)
    ensures
        spec_render_nodes(s.push(x)) == spec_render_nodes(s) + spec_render(x),
    decreases s.len(),
{
    let t = s.push(x);
    if s.len() == 0 {
        assert(t[0] == x);
        assert(t.drop_first() =~= Seq::<NodeV>::empty());
        assert(spec_render_nodes(t.drop_first()) == Seq::<char>::empty());
        assert(spec_render_nodes(t) == spec_render(x) + Seq::<char>::empty());
        assert(spec_render_nodes(s) == Seq::<char>::empty());
        assert(spec_render_nodes(t) =~= spec_render_nodes(s) + spec_render(x));
    } else {
        assert(t[0] == s[0]);
        assert(t.drop_first() =~= s.drop_first().push(x));
        lemma_render_nodes_push(s.drop_first(), x);
        assert(spec_render_nodes(t) == spec_render(s[0]) + (spec_render_nodes(s.drop_first())
            + spec_render(x)));
        assert(spec_render_nodes(t) =~= spec_render_nodes(s) + spec_render(x));
    }
}

/// Escapes `&`, `<`, `>` and `"` for embedding in markup.
pub fn escape_str(s: &str) -> (r: String)
    ensures
        r@ == escape_text(s@),
{
    let len = s.unicode_len();
    let mut r = String::new();
    let mut i: usize = 0;
    while i < len
        invariant
            len == s@.len(),
            i <= len,
            r@ == escape_text(s@.take(i as int)),
        decreases len - i,
    {
        let c = s.get_char(i);
        if c == '&' {
            r.append("&amp;");
        } else if c == '<' {
            r.append("&lt;");
        } else if c == '>' {
            r.append("&gt;");
        } else if c == '"' {
            r.append("&quot;");
        } else {
            crate::text::push_char(&mut r, c);
            proof {
                assert(r@ == escape_text(s@.take(i as int)) + seq![s@[i as int]]);
            }
        }
        proof {
            lemma_escape_text_push(s@.take(i as int), s@[i as int]);
            assert(s@.take(i as int).push(s@[i as int]) =~= s@.take(i + 1 as int));
        }
        i += 1;
    }
    proof {
        assert(s@.take(len as int) =~= s@);
    }
    r
}

/// Serializes one tree and appends the text to `out`.
#[verifier::loop_isolation(false)]
#[verifier::rlimit(60)]
pub fn render_node_into(n: &Node, out: &mut String)
    ensures
        final(out)@ == old(out)@ + spec_render(n@),
    decreases *n,
{
    match n {
        Node::Text { text } => {
            let e = escape_str(text.as_str());
            out.append(e.as_str());
        },
        Node::Element { tag, attrs, children } => {
            out.append("<");
            out.append(tag.as_name());
            let mut i: usize = 0;
            while i < attrs.len()
                invariant
                    i <= attrs.len(),
                    out@ == old(out)@ + "<"@ + tag_name(*tag) + spec_render_attrs(
                        attrs_view(attrs@).take(i as int),
                    ),
                decreases attrs.len() - i,
            {
                let k = attrs[i].0;
                out.append(" ");
                out.append(k.as_name());
                out.append("=\"");
                let e = escape_str(attrs[i].1.as_str());
                out.append(e.as_str());
                out.append("\"");
                proof {
                    let av = attrs_view(attrs@);
                    assert(av[i as int] == (attrs@[i as int].0, attrs@[i as int].1@));
                    assert(av.take(i + 1 as int) =~= av.take(i as int).push(av[i as int]));
                    lemma_render_attrs_push(av.take(i as int), av[i as int]);
                }
                i += 1;
            }
            proof {
                assert(attrs_view(attrs@).take(attrs@.len() as int) =~= attrs_view(attrs@));
            }
            out.append(">");
            {
                let ghost open_text = old(out)@ + "<"@ + tag_name(*tag) + spec_render_attrs(
                    attrs_view(attrs@),
                ) + ">"@;
                let mut j: usize = 0;
                while j < children.len()
                    invariant
                        j <= children.len(),
                        out@ == open_text + spec_render_nodes(
                            nodes_view(children@).take(j as int),
                        ),
                    decreases children.len() - j,
                {
                    proof {
                        lemma_nodes_view_index(children@, j as int);
                        assert(decreases_to!(*n => n->Element_children));
                        assert(n->Element_children == *children);
                        assert(decreases_to!(*children => children@[j as int]));
                        assert(decreases_to!(*n => children@[j as int]));
                    }
                    render_node_into(&children[j], out);
                    proof {
                        let cv = nodes_view(children@);
                        assert(cv.take(j + 1 as int) =~= cv.take(j as int).push(cv[j as int]));
                        lemma_render_nodes_push(cv.take(j as int), cv[j as int]);
                    }
                    j += 1;
                }
                proof {
                    lemma_nodes_view_len(children@);
                    assert(nodes_view(children@).take(children@.len() as int) =~= nodes_view(
                        children@,
                    ));
                }
                out.append("</");
                out.append(tag.as_name());
                out.append(">");
            }
        },
    }
}

/// Serializes one tree to markup text.
pub fn render_node(n: &Node) -> (r: String)
    ensures
        r@ == spec_render(n@),
{
    let mut out = String::new();
    render_node_into(n, &mut out);
    out
}

/// Serializes a list of sibling trees to markup text, in order.
pub fn render_nodes(list: &Vec<Node>) -> (r: String)
    ensures
        r@ == spec_render_nodes(nodes_view(list@)),
{
    let mut out = String::new();
    let mut i: usize = 0;
    while i < list.len()
        invariant
            i <= list.len(),
            out@ == spec_render_nodes(nodes_view(list@).take(i as int)),
        decreases list.len() - i,
    {
        proof {
            lemma_nodes_view_index(list@, i as int);
        }
        render_node_into(&list[i], &mut out);
        proof {
            let cv = nodes_view(list@);
            assert(cv.take(i + 1 as int) =~= cv.take(i as int).push(cv[i as int]));
            lemma_render_nodes_push(cv.take(i as int), cv[i as int]);
        }
        i += 1;
    }
    proof {
        lemma_nodes_view_len(list@);
        assert(nodes_view(list@).take(list@.len() as int) =~= nodes_view(list@));
    }
    out
}

/// Serialization reads nothing but the tree: two trees with one model render
/// to one text, so rendering an unchanged tree twice gives identical output.
pub proof fn lemma_render_deterministic(a: Node, b: Node)
    requires
        a@ == b@,
    ensures
        spec_render(a@) == spec_render(b@),
{
}

} // verus!
