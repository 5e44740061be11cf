//! Type signatures of D-Bus members, looked up in introspection data.
//!
//! An introspection document is held as an [`IntrospectNode`]: its interfaces, with their
//! methods, signals and properties, and each argument with its name, direction and type.
//! The lookups find the signature of a method's arguments, of its return value, of a
//! signal's body, or of a property's type.
use vstd::prelude::*;

use crate::text_order::text_equal;
use std::str::FromStr;
use zvariant::Signature;

verus! {

// ---------------------------------------------------------------------------
// Outside types and calls
// ---------------------------------------------------------------------------

#[verifier::external_type_specification]
#[verifier::external_body]
pub struct ExSignature(zvariant::Signature);

#[verifier::external_type_specification]
#[verifier::external_body]
pub struct ExSignatureError(zvariant::signature::Error);

#[verifier::external_type_specification]
#[verifier::external_body]
pub struct ExVariantError(zvariant::Error);

#[verifier::external_type_specification]
#[verifier::external_body]
pub struct ExXmlError(zbus_xml::Error);

/// What `zvariant::Signature::from_str` gives for a signature string.
pub uninterp spec fn parsed_signature(text: Seq<char>) -> Result<
    Signature,
    zvariant::signature::Error,
>;

/// Parses a D-Bus type signature with `zvariant::Signature::from_str`; the result is
/// a function of the text alone.
#[verifier::external_body]
fn parse_signature(text: &str) -> (r: Result<Signature, zvariant::signature::Error>)
    ensures
        r == parsed_signature(text@),
{
    Signature::from_str(text)
}

/// Clones a signature with its derived `Clone`, which copies it part by part: the copy
/// equals the signature cloned.
#[verifier::external_body]
fn clone_signature(s: &Signature) -> (r: Signature)
    ensures
        r == *s,
{
    s.clone()
}

/// Turns a signature parse error into a `zvariant::Error` with `zvariant::Error::from`,
/// which wraps it as `SignatureParse`. Nothing is stated of the opaque result.
#[verifier::external_body]
fn signature_parse_error(e: zvariant::signature::Error) -> zvariant::Error {
    zvariant::Error::from(e)
}

// ---------------------------------------------------------------------------
// Introspection data
// ---------------------------------------------------------------------------

/// The kind of interface member a lookup is for.
#[derive(Debug, PartialEq, Eq, Clone, Copy, Hash, Structural)]
pub enum MsgType {
    Method,
    Signal,
    Property,
}

/// The direction of a method argument.
#[derive(Debug, PartialEq, Eq, Clone, Copy, Hash, Structural)]
pub enum ArgDirection {
    In,
    Out,
}

/// An argument of a method or signal: its name and direction where given, its type
/// as written, and that type parsed.
#[derive(Debug)]
pub struct IntrospectArg {
    pub name: Option<String>,
    pub direction: Option<ArgDirection>,
    pub ty: String,
    pub signature: Signature,
}

/// A method or a signal, with its arguments in order.
#[derive(Debug, Clone)]
pub struct IntrospectMember {
    pub name: String,
    pub args: Vec<IntrospectArg>,
}

/// A property and its type as written.
#[derive(Debug, Clone)]
pub struct IntrospectProperty {
    pub name: String,
    pub ty: String,
}

/// An interface: its name and its members.
#[derive(Debug, Clone)]
pub struct IntrospectInterface {
    pub name: String,
    pub methods: Vec<IntrospectMember>,
    pub signals: Vec<IntrospectMember>,
    pub properties: Vec<IntrospectProperty>,
}

/// An introspection document: the interfaces it describes, in order.
#[derive(Debug, Clone)]
pub struct IntrospectNode {
    pub interfaces: Vec<IntrospectInterface>,
}

impl IntrospectArg {
    /// An argument whose type is `ty`, parsed; an error where `ty` is no signature.
    pub fn new(name: Option<&str>, direction: Option<ArgDirection>, ty: &str) -> (r: Result<
        IntrospectArg,
        zvariant::signature::Error,
    >)
        ensures
            match parsed_signature(ty@) {
                Ok(sig) => r matches Ok(a) && a.signature == sig && a.ty@ == ty@
                    && a.direction == direction && name_view(a.name) == opt_view(name),
                Err(e) => r == Err::<IntrospectArg, zvariant::signature::Error>(e),
            },
    {
        match parse_signature(ty) {
            Ok(signature) => {
                let name = match name {
                    Some(n) => Some(n.to_owned()),
                    None => None,
                };
                Ok(IntrospectArg { name, direction, ty: ty.to_owned(), signature })
            },
            Err(e) => Err(e),
        }
    }
}

impl Clone for IntrospectArg {
    fn clone(&self) -> (r: Self)
        ensures
            r == *self,
    {
        let name = match &self.name {
            Some(n) => Some(n.clone()),
            None => None,
        };
        IntrospectArg {
            name,
            direction: self.direction,
            ty: self.ty.clone(),
            signature: clone_signature(&self.signature),
        }
    }
}

impl IntrospectMember {
    pub fn new(name: &str, args: Vec<IntrospectArg>) -> (r: IntrospectMember)
        ensures
            r.name@ == name@,
            r.args == args,
    {
        IntrospectMember { name: name.to_owned(), args }
    }
}

impl IntrospectProperty {
    pub fn new(name: &str, ty: &str) -> (r: IntrospectProperty)
        ensures
            r.name@ == name@,
            r.ty@ == ty@,
    {
        IntrospectProperty { name: name.to_owned(), ty: ty.to_owned() }
    }
}

impl IntrospectInterface {
    pub fn new(
        name: &str,
        methods: Vec<IntrospectMember>,
        signals: Vec<IntrospectMember>,
        properties: Vec<IntrospectProperty>,
    ) -> (r: IntrospectInterface)
        ensures
            r.name@ == name@,
            r.methods == methods,
            r.signals == signals,
            r.properties == properties,
    {
        IntrospectInterface { name: name.to_owned(), methods, signals, properties }
    }
}

// ---------------------------------------------------------------------------
// Errors
// ---------------------------------------------------------------------------

/// Why a signature could not be given.
#[derive(Debug)]
pub enum LockstepError {
    ArgumentNotFound(String),
    InterfaceNotFound(String),
    MemberNotFound(String),
    PropertyNotFound(String),
    PathNotFound(String),
    Env(String),
    Io(String),
    Xml(zbus_xml::Error),
    Zvariant(zvariant::Error),
}

/// Writes an XML error with its `Display`; nothing is stated of the text.
#[verifier::external_body]
fn xml_error_text(e: &zbus_xml::Error) -> String {
    e.to_string()
}

/// Writes a `zvariant` error with its `Display`; nothing is stated of the text.
#[verifier::external_body]
fn variant_error_text(e: &zvariant::Error) -> String {
    e.to_string()
}

fn joined3(a: &str, b: &str, c: &str) -> (r: String)
    ensures
        r@ == a@ + b@ + c@,
{
    let mut s = String::new();
    s.append(a);
    s.append(b);
    s.append(c);
    s
}

/// The message of an error about a name: its text before and after the name.
pub open spec fn named_message(e: LockstepError) -> Option<(Seq<char>, Seq<char>, Seq<char>)> {
    match e {
        LockstepError::ArgumentNotFound(n) => Some(("Argument \""@, n@, "\" not found."@)),
        LockstepError::InterfaceNotFound(n) => Some(("Interface \""@, n@, "\" not found."@)),
        LockstepError::MemberNotFound(n) => Some(("Member \""@, n@, "\" not found."@)),
        LockstepError::PropertyNotFound(n) => Some(("Property \""@, n@, "\" not found."@)),
        LockstepError::PathNotFound(p) => Some(
            (
                "No XML path provided and default XML path not found. Searched directory: \""@,
                p@,
                "\""@,
            ),
        ),
        LockstepError::Env(m) => Some(("Environment variable error: "@, m@, ""@)),
        LockstepError::Io(m) => Some(("IO error: "@, m@, ""@)),
        _ => None,
    }
}

impl LockstepError {
    /// A message that tells what went wrong.
    pub fn message(&self) -> (r: String)
        ensures
            match named_message(*self) {
                Some((before, name, after)) => r@ == before + name + after,
                None => match *self {
                    LockstepError::Xml(_) => exists|t: Seq<char>| r@ == "XML error: "@ + t,
                    _ => exists|t: Seq<char>| r@ == "Zvariant signature error: "@ + t,
                },
            },
    {
        match self {
            LockstepError::ArgumentNotFound(n) => joined3("Argument \"", n.as_str(), "\" not found."),
            LockstepError::InterfaceNotFound(n) => joined3(
                "Interface \"",
                n.as_str(),
                "\" not found.",
            ),
            LockstepError::MemberNotFound(n) => joined3("Member \"", n.as_str(), "\" not found."),
            LockstepError::PropertyNotFound(n) => joined3(
                "Property \"",
                n.as_str(),
                "\" not found.",
            ),
            LockstepError::PathNotFound(p) => joined3(
                "No XML path provided and default XML path not found. Searched directory: \"",
                p.as_str(),
                "\"",
            ),
            LockstepError::Env(m) => joined3("Environment variable error: ", m.as_str(), ""),
            LockstepError::Io(m) => joined3("IO error: ", m.as_str(), ""),
            LockstepError::Xml(e) => {
                let t = xml_error_text(e);
                let r = joined3("XML error: ", t.as_str(), "");
                assert(r@ == "XML error: "@ + t@) by {
                    reveal_strlit("");
                    assert(t@ + ""@ =~= t@);
                }
                r
            },
            LockstepError::Zvariant(e) => {
                let t = variant_error_text(e);
                let r = joined3("Zvariant signature error: ", t.as_str(), "");
                assert(r@ == "Zvariant signature error: "@ + t@) by {
                    reveal_strlit("");
                    assert(t@ + ""@ =~= t@);
                }
                r
            },
        }
    }
}

// ---------------------------------------------------------------------------
// Reading introspection XML
// ---------------------------------------------------------------------------

#[verifier::external_type_specification]
#[verifier::external_body]
pub struct ExXmlNode<'a>(zbus_xml::Node<'a>);

/// An argument as an introspection document writes it: name and direction where given,
/// and its type.
pub struct ArgText {
    pub name: Option<Seq<char>>,
    pub direction: Option<ArgDirection>,
    pub ty: Seq<char>,
}

/// A method or signal as a document writes it.
pub struct MemberText {
    pub name: Seq<char>,
    pub args: Seq<ArgText>,
}

/// A property as a document writes it.
pub struct PropertyText {
    pub name: Seq<char>,
    pub ty: Seq<char>,
}

/// An interface as a document writes it.
pub struct InterfaceText {
    pub name: Seq<char>,
    pub methods: Seq<MemberText>,
    pub signals: Seq<MemberText>,
    pub properties: Seq<PropertyText>,
}

/// What `zbus_xml` reads from an introspection document: its interfaces in order, or
/// `None` where the text is no document it accepts (bad XML, a bad name, a bad type).
pub uninterp spec fn xml_document(xml: Seq<char>) -> Option<Seq<InterfaceText>>;

/// What a parsed `zbus_xml::Node` holds: its interfaces, as the document writes them.
pub uninterp spec fn node_document(node: zbus_xml::Node) -> Seq<InterfaceText>;

/// An argument handed out of a parsed document.
pub struct XmlArg(pub Option<String>, pub Option<ArgDirection>, pub String);

/// A method or signal handed out of a parsed document.
pub struct XmlMember(pub String, pub Vec<XmlArg>);

pub open spec fn arg_text(a: XmlArg) -> ArgText {
    ArgText { name: name_view(a.0), direction: a.1, ty: a.2@ }
}

pub open spec fn member_text(m: XmlMember) -> MemberText {
    MemberText { name: m.0@, args: m.1@.map_values(|a: XmlArg| arg_text(a)) }
}

pub open spec fn property_text(p: (String, String)) -> PropertyText {
    PropertyText { name: p.0@, ty: p.1@ }
}

/// Parses an introspection document with `zbus_xml::Node::try_from`; what the node
/// holds is what the text describes, and it fails exactly where the text is no
/// document.
#[verifier::external_body]
fn parse_node<'a>(xml: &'a str) -> (r: Result<zbus_xml::Node<'a>, zbus_xml::Error>)
    ensures
        r is Ok <==> xml_document(xml@) is Some,
        r matches Ok(n) ==> xml_document(xml@) == Some(node_document(n)),
{
    zbus_xml::Node::try_from(xml)
}

/// How many interfaces `Node::interfaces` holds.
#[verifier::external_body]
fn node_interface_count(n: &zbus_xml::Node) -> (r: usize)
    ensures
        r == node_document(*n).len(),
{
    n.interfaces().len()
}

/// The name of interface `i`, with `InterfaceName`'s `to_string`.
#[verifier::external_body]
fn interface_name(n: &zbus_xml::Node, i: usize) -> (r: String)
    requires
        i < node_document(*n).len(),
    ensures
        r@ == node_document(*n)[i as int].name,
{
    n.interfaces()[i].name().to_string()
}

/// The methods of interface `i`, each with its arguments.
#[verifier::external_body]
fn interface_methods(n: &zbus_xml::Node, i: usize) -> (r: Vec<XmlMember>)
    requires
        i < node_document(*n).len(),
    ensures
        r@.map_values(|m: XmlMember| member_text(m)) == node_document(*n)[i as int].methods,
{
    let dir = |d| match d {
        zbus_xml::ArgDirection::In => ArgDirection::In,
        zbus_xml::ArgDirection::Out => ArgDirection::Out,
    };
    let arg = |a: &zbus_xml::Arg| XmlArg(a.name().map(String::from), a.direction().map(dir), a.ty().to_string());
    n.interfaces()[i].methods().iter().map(|m| XmlMember(m.name().to_string(), m.args().iter().map(arg).collect())).collect()
}

/// The signals of interface `i`, each with its arguments.
#[verifier::external_body]
fn interface_signals(n: &zbus_xml::Node, i: usize) -> (r: Vec<XmlMember>)
    requires
        i < node_document(*n).len(),
    ensures
        r@.map_values(|m: XmlMember| member_text(m)) == node_document(*n)[i as int].signals,
{
    let dir = |d| match d {
        zbus_xml::ArgDirection::In => ArgDirection::In,
        zbus_xml::ArgDirection::Out => ArgDirection::Out,
    };
    let arg = |a: &zbus_xml::Arg| XmlArg(a.name().map(String::from), a.direction().map(dir), a.ty().to_string());
    n.interfaces()[i].signals().iter().map(|m| XmlMember(m.name().to_string(), m.args().iter().map(arg).collect())).collect()
}

/// The properties of interface `i`, each with its type.
#[verifier::external_body]
fn interface_properties(n: &zbus_xml::Node, i: usize) -> (r: Vec<(String, String)>)
    requires
        i < node_document(*n).len(),
    ensures
        r@.map_values(|p: (String, String)| property_text(p)) == node_document(*n)[i as int].properties,
{
    n.interfaces()[i].properties().iter().map(|p| (p.name().to_string(), p.ty().to_string())).collect()
}

/// Every argument type that a list of members writes is a signature.
pub open spec fn member_types_parse(ms: Seq<MemberText>) -> bool {
    forall|j: int, k: int|
        0 <= j < ms.len() && 0 <= k < ms[j].args.len() ==> #[trigger] parsed_signature(ms[j].args[k].ty) is Ok
}

/// Every argument type in a document is a signature.
pub open spec fn document_types_parse(doc: Seq<InterfaceText>) -> bool {
    forall|i: int|
        0 <= i < doc.len() ==> member_types_parse(#[trigger] doc[i].methods) && member_types_parse(
            doc[i].signals,
        )
}

/// An argument holds what its text writes, its type parsed.
pub open spec fn arg_models(a: IntrospectArg, t: ArgText) -> bool {
    &&& name_view(a.name) == t.name
    &&& a.direction == t.direction
    &&& a.ty@ == t.ty
    &&& parsed_signature(t.ty) == Ok::<Signature, zvariant::signature::Error>(a.signature)
}

pub open spec fn member_models(m: IntrospectMember, t: MemberText) -> bool {
    &&& m.name@ == t.name
    &&& m.args@.len() == t.args.len()
    &&& forall|k: int| 0 <= k < t.args.len() ==> #[trigger] arg_models(m.args@[k], t.args[k])
}

pub open spec fn members_model(ms: Seq<IntrospectMember>, ts: Seq<MemberText>) -> bool {
    &&& ms.len() == ts.len()
    &&& forall|j: int| 0 <= j < ts.len() ==> #[trigger] member_models(ms[j], ts[j])
}

pub open spec fn properties_model(ps: Seq<IntrospectProperty>, ts: Seq<PropertyText>) -> bool {
    &&& ps.len() == ts.len()
    &&& forall|j: int| 0 <= j < ts.len() ==> #[trigger] ps[j].name@ == ts[j].name && ps[j].ty@ == ts[j].ty
}

pub open spec fn interface_models(i: IntrospectInterface, t: InterfaceText) -> bool {
    &&& i.name@ == t.name
    &&& members_model(i.methods@, t.methods)
    &&& members_model(i.signals@, t.signals)
    &&& properties_model(i.properties@, t.properties)
}

/// A document model holds what the document writes, interface by interface.
pub open spec fn node_models(node: IntrospectNode, doc: Seq<InterfaceText>) -> bool {
    &&& node.interfaces@.len() == doc.len()
    &&& forall|i: int| 0 <= i < doc.len() ==> #[trigger] interface_models(node.interfaces@[i], doc[i])
}

/// What reading a document gives: an XML error where the text is no document, else the
/// document, each argument type parsed (a `zvariant` error where one does not parse).
pub open spec fn reads_document(xml: Seq<char>, r: Result<IntrospectNode, LockstepError>) -> bool {
    match xml_document(xml) {
        None => r matches Err(LockstepError::Xml(_)),
        Some(doc) => if document_types_parse(doc) {
            r matches Ok(node) && node_models(node, doc)
        } else {
            r matches Err(LockstepError::Zvariant(_))
        },
    }
}

fn read_members(ms: Vec<XmlMember>) -> (r: Result<Vec<IntrospectMember>, LockstepError>)
    ensures
        member_types_parse(ms@.map_values(|m: XmlMember| member_text(m))) ==> (r matches Ok(v)
            && members_model(v@, ms@.map_values(|m: XmlMember| member_text(m)))),
        !member_types_parse(ms@.map_values(|m: XmlMember| member_text(m))) ==> r matches Err(
            LockstepError::Zvariant(_),
        ),
{
    let ghost ts = ms@.map_values(|m: XmlMember| member_text(m));
    let mut out: Vec<IntrospectMember> = Vec::new();
    let mut j: usize = 0;
    while j < ms.len()
        invariant
            ts == ms@.map_values(|m: XmlMember| member_text(m)),
            j <= ms@.len(),
            out@.len() == j,
            forall|jj: int| 0 <= jj < j ==> #[trigger] member_models(out@[jj], ts[jj]),
            forall|jj: int, k: int|
                0 <= jj < j && 0 <= k < ts[jj].args.len() ==> #[trigger] parsed_signature(ts[jj].args[k].ty) is Ok,
        decreases ms@.len() - j,
    {
        let m = &ms[j];
        let ghost t = ts[j as int];
        assert(t == member_text(ms@[j as int]));
        let mut args: Vec<IntrospectArg> = Vec::new();
        let mut k: usize = 0;
        while k < m.1.len()
            invariant
                t == member_text(*m),
                ts == ms@.map_values(|m: XmlMember| member_text(m)),
                j < ms@.len(),
                t == ts[j as int],
                k <= m.1@.len(),
                args@.len() == k,
                forall|kk: int| 0 <= kk < k ==> #[trigger] arg_models(args@[kk], t.args[kk]),
                forall|kk: int| 0 <= kk < k ==> #[trigger] parsed_signature(t.args[kk].ty) is Ok,
            decreases m.1@.len() - k,
        {
            let a = &m.1[k];
            assert(t.args[k as int] == arg_text(m.1@[k as int]));
            let name = match &a.0 {
                Some(n) => Some(n.as_str()),
                None => None,
            };
            match IntrospectArg::new(name, a.1, a.2.as_str()) {
                Ok(arg) => {
                    args.push(arg);
                },
                Err(e) => {
                    proof {
                        assert(parsed_signature(ts[j as int].args[k as int].ty) is Err);
                    }
                    return Err(LockstepError::Zvariant(signature_parse_error(e)));
                },
            }
            k += 1;
        }
        out.push(IntrospectMember { name: m.0.clone(), args });
        proof {
            assert(member_models(out@[j as int], ts[j as int]));
        }
        j += 1;
    }
    Ok(out)
}

fn read_properties(ps: Vec<(String, String)>) -> (r: Vec<IntrospectProperty>)
    ensures
        properties_model(r@, ps@.map_values(|p: (String, String)| property_text(p))),
{
    let ghost ts = ps@.map_values(|p: (String, String)| property_text(p));
    let mut out: Vec<IntrospectProperty> = Vec::new();
    let mut j: usize = 0;
    while j < ps.len()
        invariant
            ts == ps@.map_values(|p: (String, String)| property_text(p)),
            j <= ps@.len(),
            out@.len() == j,
            forall|jj: int| 0 <= jj < j ==> #[trigger] out@[jj].name@ == ts[jj].name && out@[jj].ty@ == ts[jj].ty,
        decreases ps@.len() - j,
    {
        out.push(IntrospectProperty { name: ps[j].0.clone(), ty: ps[j].1.clone() });
        j += 1;
    }
    out
}

/// Reads an introspection document.
pub fn read_introspection(xml: &str) -> (r: Result<IntrospectNode, LockstepError>)
    ensures
        reads_document(xml@, r),
{
    let node = match parse_node(xml) {
        Ok(n) => n,
        Err(e) => return Err(LockstepError::Xml(e)),
    };
    let ghost doc = node_document(node);
    let count = node_interface_count(&node);
    let mut interfaces: Vec<IntrospectInterface> = Vec::new();
    let mut i: usize = 0;
    while i < count
        invariant
            doc == node_document(node),
            xml_document(xml@) == Some(doc),
            count == doc.len(),
            i <= count,
            interfaces@.len() == i,
            forall|ii: int| 0 <= ii < i ==> #[trigger] interface_models(interfaces@[ii], doc[ii]),
            forall|ii: int| 0 <= ii < i ==> member_types_parse(#[trigger] doc[ii].methods) && member_types_parse(doc[ii].signals),
        decreases count - i,
    {
        let name = interface_name(&node, i);
        let methods = match read_members(interface_methods(&node, i)) {
            Ok(v) => v,
            Err(e) => return Err(e),
        };
        let signals = match read_members(interface_signals(&node, i)) {
            Ok(v) => v,
            Err(e) => return Err(e),
        };
        let properties = read_properties(interface_properties(&node, i));
        interfaces.push(IntrospectInterface { name, methods, signals, properties });
        proof {
            assert(interface_models(interfaces@[i as int], doc[i as int]));
        }
        i += 1;
    }
    let r = IntrospectNode { interfaces };
    proof {
        assert(node_models(r, doc));
    }
    Ok(r)
}

// ---------------------------------------------------------------------------
// First matches
// ---------------------------------------------------------------------------

pub open spec fn opt_view(o: Option<&str>) -> Option<Seq<char>> {
    match o {
        Some(s) => Some(s@),
        None => None,
    }
}

pub open spec fn name_view(o: Option<String>) -> Option<Seq<char>> {
    match o {
        Some(s) => Some(s@),
        None => None,
    }
}

/// `i` is the first position of `s` whose item satisfies `p`.
pub open spec fn is_first<T>(s: Seq<T>, p: spec_fn(T) -> bool, i: int) -> bool {
    &&& 0 <= i < s.len()
    &&& p(s[i])
    &&& forall|j: int| 0 <= j < i ==> !p(#[trigger] s[j])
}

/// The first position of `s` whose item satisfies `p`, if any.
pub open spec fn first_index<T>(s: Seq<T>, p: spec_fn(T) -> bool) -> Option<int> {
    if exists|i: int| is_first(s, p, i) {
        Some(choose|i: int| is_first(s, p, i))
    } else {
        None
    }
}

/// A search result `r` is the first match of `p` in `s`.
pub open spec fn first_found<T>(s: Seq<T>, p: spec_fn(T) -> bool, r: Option<usize>) -> bool {
    match r {
        Some(i) => first_index(s, p) == Some(i as int),
        None => first_index(s, p) is None,
    }
}

pub proof fn lemma_first_index<T>(s: Seq<T>, p: spec_fn(T) -> bool, i: int)
    requires
        is_first(s, p, i),
    ensures
        first_index(s, p) == Some(i),
{
    let k = choose|k: int| is_first(s, p, k);
    assert(is_first(s, p, k));
    if k < i {
        assert(!p(s[k]));
    } else if k > i {
        assert(!p(s[i]));
    }
}

pub proof fn lemma_first_index_none<T>(s: Seq<T>, p: spec_fn(T) -> bool)
    requires
        forall|j: int| 0 <= j < s.len() ==> !p(#[trigger] s[j]),
    ensures
        first_index(s, p) is None,
{
    if exists|i: int| is_first(s, p, i) {
        let k = choose|k: int| is_first(s, p, k);
        assert(p(s[k]));
    }
}

pub open spec fn interface_named(name: Seq<char>) -> spec_fn(IntrospectInterface) -> bool {
    |i: IntrospectInterface| i.name@ == name
}

pub open spec fn member_named(name: Seq<char>) -> spec_fn(IntrospectMember) -> bool {
    |m: IntrospectMember| m.name@ == name
}

pub open spec fn property_named(name: Seq<char>) -> spec_fn(IntrospectProperty) -> bool {
    |p: IntrospectProperty| p.name@ == name
}

/// Whether an argument's direction passes a filter (`None` lets every argument pass).
pub open spec fn direction_passes(a: IntrospectArg, dir: Option<ArgDirection>) -> bool {
    dir is None || a.direction == dir
}

pub open spec fn arg_named(name: Seq<char>, dir: Option<ArgDirection>) -> spec_fn(
    IntrospectArg,
) -> bool {
    |a: IntrospectArg| name_view(a.name) == Some(name) && direction_passes(a, dir)
}

/// The types of the arguments that pass the filter, written one after another.
pub open spec fn joined_types(args: Seq<IntrospectArg>, dir: Option<ArgDirection>) -> Seq<char>
    decreases args.len(),
{
    if args.len() == 0 {
        Seq::empty()
    } else {
        let before = joined_types(args.drop_last(), dir);
        if direction_passes(args.last(), dir) {
            before + args.last().ty@
        } else {
            before
        }
    }
}

/// The types of all the arguments, written one after another.
pub open spec fn all_types(args: Seq<IntrospectArg>) -> Seq<char>
    decreases args.len(),
{
    if args.len() == 0 {
        Seq::empty()
    } else {
        all_types(args.drop_last()) + args.last().ty@
    }
}

/// Whether an argument is marked with direction `d`.
pub open spec fn marked(d: ArgDirection) -> spec_fn(IntrospectArg) -> bool {
    |a: IntrospectArg| a.direction == Some(d)
}

/// The arguments whose direction is exactly `d`.
pub open spec fn args_with_direction(args: Seq<IntrospectArg>, d: ArgDirection) -> Seq<IntrospectArg> {
    args.filter(marked(d))
}

/// A direction filter lets through exactly the arguments marked with that direction
/// (an argument with no direction is not marked with either), and no filter lets every
/// argument through: the joined types are those of the arguments marked `d`, in order.
pub proof fn law_direction_filter(args: Seq<IntrospectArg>, d: ArgDirection)
    ensures
        forall|a: IntrospectArg| #[trigger] direction_passes(a, Some(d)) <==> a.direction == Some(d),
        forall|a: IntrospectArg| #[trigger] direction_passes(a, None),
        joined_types(args, Some(d)) == all_types(args_with_direction(args, d)),
        joined_types(args, None) == all_types(args),
    decreases args.len(),
{
    let f = args_with_direction(args, d);
    reveal_with_fuel(Seq::<IntrospectArg>::filter, 1);
    if args.len() == 0 {
        assert(f =~= Seq::<IntrospectArg>::empty());
    } else {
        law_direction_filter(args.drop_last(), d);
        let prev = args_with_direction(args.drop_last(), d);
        let x = args.last();
        if x.direction == Some(d) {
            assert(f == prev.push(x));
            assert(f.drop_last() =~= prev);
        } else {
            assert(f == prev);
        }
    }
}

/// A method's return type, asked for without an argument name, is the types of the
/// arguments marked `out`, joined in order; its arguments' type is those marked `in`.
pub proof fn law_method_types_by_direction(
    node: IntrospectNode,
    interface: Seq<char>,
    member: Seq<char>,
    i: int,
    m: int,
)
    requires
        first_index(node.interfaces@, interface_named(interface)) == Some(i),
        first_index(node.interfaces@[i].methods@, member_named(member)) == Some(m),
    ensures
        member_lookup(node, interface, member, None, MsgType::Method, Some(ArgDirection::Out))
            == SignatureLookup::Joined(
            all_types(args_with_direction(node.interfaces@[i].methods@[m].args@, ArgDirection::Out)),
        ),
        member_lookup(node, interface, member, None, MsgType::Method, Some(ArgDirection::In))
            == SignatureLookup::Joined(
            all_types(args_with_direction(node.interfaces@[i].methods@[m].args@, ArgDirection::In)),
        ),
{
    law_direction_filter(node.interfaces@[i].methods@[m].args@, ArgDirection::Out);
    law_direction_filter(node.interfaces@[i].methods@[m].args@, ArgDirection::In);
}

fn find_interface(interfaces: &Vec<IntrospectInterface>, name: &str) -> (r: Option<usize>)
    ensures
        first_found(interfaces@, interface_named(name@), r),
{
    let ghost p = interface_named(name@);
    let mut i: usize = 0;
    while i < interfaces.len()
        invariant
            i <= interfaces@.len(),
            p == interface_named(name@),
            forall|j: int| 0 <= j < i ==> !p(#[trigger] interfaces@[j]),
        decreases interfaces@.len() - i,
    {
        if text_equal(interfaces[i].name.as_str(), name) {
            proof {
                lemma_first_index(interfaces@, p, i as int);
            }
            return Some(i);
        }
        i += 1;
    }
    proof {
        lemma_first_index_none(interfaces@, p);
    }
    None
}

fn find_member(members: &Vec<IntrospectMember>, name: &str) -> (r: Option<usize>)
    ensures
        first_found(members@, member_named(name@), r),
{
    let ghost p = member_named(name@);
    let mut i: usize = 0;
    while i < members.len()
        invariant
            i <= members@.len(),
            p == member_named(name@),
            forall|j: int| 0 <= j < i ==> !p(#[trigger] members@[j]),
        decreases members@.len() - i,
    {
        if text_equal(members[i].name.as_str(), name) {
            proof {
                lemma_first_index(members@, p, i as int);
            }
            return Some(i);
        }
        i += 1;
    }
    proof {
        lemma_first_index_none(members@, p);
    }
    None
}

fn find_property(properties: &Vec<IntrospectProperty>, name: &str) -> (r: Option<usize>)
    ensures
        first_found(properties@, property_named(name@), r),
{
    let ghost p = property_named(name@);
    let mut i: usize = 0;
    while i < properties.len()
        invariant
            i <= properties@.len(),
            p == property_named(name@),
            forall|j: int| 0 <= j < i ==> !p(#[trigger] properties@[j]),
        decreases properties@.len() - i,
    {
        if text_equal(properties[i].name.as_str(), name) {
            proof {
                lemma_first_index(properties@, p, i as int);
            }
            return Some(i);
        }
        i += 1;
    }
    proof {
        lemma_first_index_none(properties@, p);
    }
    None
}

fn direction_matches(a: &IntrospectArg, dir: Option<ArgDirection>) -> (r: bool)
    ensures
        r == direction_passes(*a, dir),
{
    match dir {
        None => true,
        Some(d) => match a.direction {
            Some(ad) => ad == d,
            None => false,
        },
    }
}

fn find_arg(args: &Vec<IntrospectArg>, name: &str, dir: Option<ArgDirection>) -> (r: Option<
    usize,
>)
    ensures
        first_found(args@, arg_named(name@, dir), r),
{
    let ghost p = arg_named(name@, dir);
    let mut i: usize = 0;
    while i < args.len()
        invariant
            i <= args@.len(),
            p == arg_named(name@, dir),
            forall|j: int| 0 <= j < i ==> !p(#[trigger] args@[j]),
        decreases args@.len() - i,
    {
        let a = &args[i];
        let named = match &a.name {
            Some(n) => text_equal(n.as_str(), name),
            None => false,
        };
        if named && direction_matches(a, dir) {
            proof {
                lemma_first_index(args@, p, i as int);
            }
            return Some(i);
        }
        i += 1;
    }
    proof {
        lemma_first_index_none(args@, p);
    }
    None
}

fn join_types(args: &Vec<IntrospectArg>, dir: Option<ArgDirection>) -> (r: String)
    ensures
        r@ == joined_types(args@, dir),
{
    let mut joined = String::new();
    let mut i: usize = 0;
    while i < args.len()
        invariant
            i <= args@.len(),
            joined@ == joined_types(args@.take(i as int), dir),
        decreases args@.len() - i,
    {
        assert(args@.take(i + 1).drop_last() =~= args@.take(i as int));
        if direction_matches(&args[i], dir) {
            joined.append(args[i].ty.as_str());
        }
        i += 1;
    }
    assert(args@.take(i as int) =~= args@);
    joined
}

// ---------------------------------------------------------------------------
// Lookups
// ---------------------------------------------------------------------------

/// Where a lookup ends: a missing interface, member, property or argument, a signature
/// found, or a signature string still to be parsed.
pub enum SignatureLookup {
    NoInterface,
    NoMember,
    NoProperty,
    NoArgument,
    Found(Signature),
    Joined(Seq<char>),
}

/// The signature of the named argument among `args`, or of all of them joined.
pub open spec fn args_lookup(
    args: Seq<IntrospectArg>,
    arg: Option<Seq<char>>,
    dir: Option<ArgDirection>,
) -> SignatureLookup {
    match arg {
        Some(name) => match first_index(args, arg_named(name, dir)) {
            Some(k) => SignatureLookup::Found(args[k].signature),
            None => SignatureLookup::NoArgument,
        },
        None => SignatureLookup::Joined(joined_types(args, dir)),
    }
}

/// Lookup of a method's arguments that pass `dir`, or of a signal's arguments.
pub open spec fn member_lookup(
    node: IntrospectNode,
    interface: Seq<char>,
    member: Seq<char>,
    arg: Option<Seq<char>>,
    kind: MsgType,
    dir: Option<ArgDirection>,
) -> SignatureLookup {
    match first_index(node.interfaces@, interface_named(interface)) {
        None => SignatureLookup::NoInterface,
        Some(i) => {
            let members = if kind == MsgType::Signal {
                node.interfaces@[i].signals@
            } else {
                node.interfaces@[i].methods@
            };
            match first_index(members, member_named(member)) {
                None => SignatureLookup::NoMember,
                Some(m) => args_lookup(members[m].args@, arg, dir),
            }
        },
    }
}

/// Lookup of a property's type.
pub open spec fn property_lookup(
    node: IntrospectNode,
    interface: Seq<char>,
    property: Seq<char>,
) -> SignatureLookup {
    match first_index(node.interfaces@, interface_named(interface)) {
        None => SignatureLookup::NoInterface,
        Some(i) => {
            let properties = node.interfaces@[i].properties@;
            match first_index(properties, property_named(property)) {
                None => SignatureLookup::NoProperty,
                Some(p) => SignatureLookup::Joined(properties[p].ty@),
            }
        },
    }
}

/// What a lookup returns: each missing part is its own error, carrying the name
/// searched for; a joined signature string is parsed.
pub open spec fn lookup_returns(
    l: SignatureLookup,
    r: Result<Signature, LockstepError>,
    interface: Seq<char>,
    member: Seq<char>,
    arg: Option<Seq<char>>,
) -> bool {
    match l {
        SignatureLookup::NoInterface => r matches Err(LockstepError::InterfaceNotFound(n))
            && n@ == interface,
        SignatureLookup::NoMember => r matches Err(LockstepError::MemberNotFound(n)) && n@
            == member,
        SignatureLookup::NoProperty => r matches Err(LockstepError::PropertyNotFound(n)) && n@
            == member,
        SignatureLookup::NoArgument => r matches Err(LockstepError::ArgumentNotFound(n)) && arg
            == Some(n@),
        SignatureLookup::Found(sig) => r == Ok::<Signature, LockstepError>(sig),
        SignatureLookup::Joined(text) => match parsed_signature(text) {
            Ok(sig) => r == Ok::<Signature, LockstepError>(sig),
            Err(_) => r matches Err(LockstepError::Zvariant(_)),
        },
    }
}

fn parse_joined(text: &str) -> (r: Result<Signature, LockstepError>)
    ensures
        match parsed_signature(text@) {
            Ok(sig) => r == Ok::<Signature, LockstepError>(sig),
            Err(_) => r matches Err(LockstepError::Zvariant(_)),
        },
{
    match parse_signature(text) {
        Ok(sig) => Ok(sig),
        Err(e) => Err(LockstepError::Zvariant(signature_parse_error(e))),
    }
}

fn args_signature(args: &Vec<IntrospectArg>, arg_name: Option<&str>, dir: Option<
    ArgDirection,
>) -> (r: Result<Signature, LockstepError>)
    ensures
        lookup_returns(args_lookup(args@, opt_view(arg_name), dir), r, Seq::empty(), Seq::empty(), opt_view(arg_name)),
{
    match arg_name {
        Some(needle) => match find_arg(args, needle, dir) {
            Some(k) => Ok(clone_signature(&args[k].signature)),
            None => Err(LockstepError::ArgumentNotFound(needle.to_owned())),
        },
        None => {
            let joined = join_types(args, dir);
            parse_joined(joined.as_str())
        },
    }
}

fn member_signature(
    node: &IntrospectNode,
    interface_name: &str,
    member_name: &str,
    arg_name: Option<&str>,
    kind: MsgType,
    dir: Option<ArgDirection>,
) -> (r: Result<Signature, LockstepError>)
    requires
        kind != MsgType::Property,
    ensures
        lookup_returns(
            member_lookup(*node, interface_name@, member_name@, opt_view(arg_name), kind, dir),
            r,
            interface_name@,
            member_name@,
            opt_view(arg_name),
        ),
{
    let i = match find_interface(&node.interfaces, interface_name) {
        Some(i) => i,
        None => return Err(LockstepError::InterfaceNotFound(interface_name.to_owned())),
    };
    let interface = &node.interfaces[i];
    let members = if kind == MsgType::Signal {
        &interface.signals
    } else {
        &interface.methods
    };
    let m = match find_member(members, member_name) {
        Some(m) => m,
        None => return Err(LockstepError::MemberNotFound(member_name.to_owned())),
    };
    args_signature(&members[m].args, arg_name, dir)
}

/// The signature of a signal's body: of the named argument, or of all its arguments.
pub fn get_signal_body_type_in_node(
    node: &IntrospectNode,
    interface_name: &str,
    member_name: &str,
    arg_name: Option<&str>,
) -> (r: Result<Signature, LockstepError>)
    ensures
        lookup_returns(
            member_lookup(*node, interface_name@, member_name@, opt_view(arg_name), MsgType::Signal, None),
            r,
            interface_name@,
            member_name@,
            opt_view(arg_name),
        ),
{
    member_signature(node, interface_name, member_name, arg_name, MsgType::Signal, None)
}

/// The signature of a property's type.
pub fn get_property_type_in_node(node: &IntrospectNode, interface_name: &str, property_name: &str) -> (r:
    Result<Signature, LockstepError>)
    ensures
        lookup_returns(
            property_lookup(*node, interface_name@, property_name@),
            r,
            interface_name@,
            property_name@,
            None,
        ),
{
    let i = match find_interface(&node.interfaces, interface_name) {
        Some(i) => i,
        None => return Err(LockstepError::InterfaceNotFound(interface_name.to_owned())),
    };
    let properties = &node.interfaces[i].properties;
    let p = match find_property(properties, property_name) {
        Some(p) => p,
        None => return Err(LockstepError::PropertyNotFound(property_name.to_owned())),
    };
    parse_joined(properties[p].ty.as_str())
}

/// The signature of a method's return value: of the named output argument, or of all
/// its output arguments.
pub fn get_method_return_type_in_node(
    node: &IntrospectNode,
    interface_name: &str,
    member_name: &str,
    arg_name: Option<&str>,
) -> (r: Result<Signature, LockstepError>)
    ensures
        lookup_returns(
            member_lookup(*node, interface_name@, member_name@, opt_view(arg_name), MsgType::Method, Some(ArgDirection::Out)),
            r,
            interface_name@,
            member_name@,
            opt_view(arg_name),
        ),
{
    member_signature(
        node,
        interface_name,
        member_name,
        arg_name,
        MsgType::Method,
        Some(ArgDirection::Out),
    )
}

/// The signature of a method's arguments: of the named input argument, or of all its
/// input arguments.
pub fn get_method_args_type_in_node(
    node: &IntrospectNode,
    interface_name: &str,
    member_name: &str,
    arg_name: Option<&str>,
) -> (r: Result<Signature, LockstepError>)
    ensures
        lookup_returns(
            member_lookup(*node, interface_name@, member_name@, opt_view(arg_name), MsgType::Method, Some(ArgDirection::In)),
            r,
            interface_name@,
            member_name@,
            opt_view(arg_name),
        ),
{
    member_signature(
        node,
        interface_name,
        member_name,
        arg_name,
        MsgType::Method,
        Some(ArgDirection::In),
    )
}

// ---------------------------------------------------------------------------
// Lookups in introspection XML
// ---------------------------------------------------------------------------

/// What a lookup in an introspection document returns: an XML error where the text is
/// no document, a `zvariant` error where an argument type does not parse, and otherwise
/// what `lookup` gives on the document read.
pub open spec fn xml_lookup_returns(
    xml: Seq<char>,
    lookup: spec_fn(IntrospectNode) -> SignatureLookup,
    r: Result<Signature, LockstepError>,
    interface: Seq<char>,
    member: Seq<char>,
    arg: Option<Seq<char>>,
) -> bool {
    match xml_document(xml) {
        None => r matches Err(LockstepError::Xml(_)),
        Some(doc) => if document_types_parse(doc) {
            exists|node: IntrospectNode|
                #[trigger] node_models(node, doc) && lookup_returns(
                    lookup(node),
                    r,
                    interface,
                    member,
                    arg,
                )
        } else {
            r matches Err(LockstepError::Zvariant(_))
        },
    }
}

/// The signature of a signal's body, read from introspection XML.
pub fn get_signal_body_type(
    xml: &str,
    interface_name: &str,
    member_name: &str,
    arg_name: Option<&str>,
) -> (r: Result<Signature, LockstepError>)
    ensures
        xml_lookup_returns(
            xml@,
            |n: IntrospectNode|
                member_lookup(n, interface_name@, member_name@, opt_view(arg_name), MsgType::Signal, None),
            r,
            interface_name@,
            member_name@,
            opt_view(arg_name),
        ),
{
    let node = match read_introspection(xml) {
        Ok(node) => node,
        Err(e) => return Err(e),
    };
    let r = get_signal_body_type_in_node(&node, interface_name, member_name, arg_name);
    proof {
        let doc = xml_document(xml@)->0;
        assert(node_models(node, doc));
    }
    r
}

/// The signature of a property's type, read from introspection XML.
pub fn get_property_type(xml: &str, interface_name: &str, property_name: &str) -> (r: Result<
    Signature,
    LockstepError,
>)
    ensures
        xml_lookup_returns(
            xml@,
            |n: IntrospectNode| property_lookup(n, interface_name@, property_name@),
            r,
            interface_name@,
            property_name@,
            None,
        ),
{
    let node = match read_introspection(xml) {
        Ok(node) => node,
        Err(e) => return Err(e),
    };
    let r = get_property_type_in_node(&node, interface_name, property_name);
    proof {
        let doc = xml_document(xml@)->0;
        assert(node_models(node, doc));
    }
    r
}

/// The signature of a method's return value, read from introspection XML.
pub fn get_method_return_type(
    xml: &str,
    interface_name: &str,
    member_name: &str,
    arg_name: Option<&str>,
) -> (r: Result<Signature, LockstepError>)
    ensures
        xml_lookup_returns(
            xml@,
            |n: IntrospectNode|
                member_lookup(
                    n,
                    interface_name@,
                    member_name@,
                    opt_view(arg_name),
                    MsgType::Method,
                    Some(ArgDirection::Out),
                ),
            r,
            interface_name@,
            member_name@,
            opt_view(arg_name),
        ),
{
    let node = match read_introspection(xml) {
        Ok(node) => node,
        Err(e) => return Err(e),
    };
    let r = get_method_return_type_in_node(&node, interface_name, member_name, arg_name);
    proof {
        let doc = xml_document(xml@)->0;
        assert(node_models(node, doc));
    }
    r
}

/// The signature of a method's arguments, read from introspection XML.
pub fn get_method_args_type(
    xml: &str,
    interface_name: &str,
    member_name: &str,
    arg_name: Option<&str>,
) -> (r: Result<Signature, LockstepError>)
    ensures
        xml_lookup_returns(
            xml@,
            |n: IntrospectNode|
                member_lookup(
                    n,
                    interface_name@,
                    member_name@,
                    opt_view(arg_name),
                    MsgType::Method,
                    Some(ArgDirection::In),
                ),
            r,
            interface_name@,
            member_name@,
            opt_view(arg_name),
        ),
{
    let node = match read_introspection(xml) {
        Ok(node) => node,
        Err(e) => return Err(e),
    };
    let r = get_method_args_type_in_node(&node, interface_name, member_name, arg_name);
    proof {
        let doc = xml_document(xml@)->0;
        assert(node_models(node, doc));
    }
    r
}

// ---------------------------------------------------------------------------
// Finding where a member is defined
// ---------------------------------------------------------------------------

pub open spec fn sum(s: Seq<nat>) -> nat
    decreases s.len(),
{
    if s.len() == 0 {
        0
    } else {
        sum(s.drop_last()) + s.last()
    }
}

proof fn lemma_sum_take_step(s: Seq<nat>, i: int)
    requires
        0 <= i < s.len(),
    ensures
        sum(s.take(i + 1)) == sum(s.take(i)) + s[i],
{
    assert(s.take(i + 1).drop_last() =~= s.take(i));
}

/// A count that stops at two: none, one, or more than one.
pub open spec fn at_most_two(n: nat) -> nat {
    if n >= 2 {
        2
    } else {
        n
    }
}

/// The names of an interface's members of one kind, in order.
pub open spec fn item_names(itf: IntrospectInterface, kind: MsgType) -> Seq<Seq<char>> {
    match kind {
        MsgType::Method => itf.methods@.map_values(|m: IntrospectMember| m.name@),
        MsgType::Signal => itf.signals@.map_values(|m: IntrospectMember| m.name@),
        MsgType::Property => itf.properties@.map_values(|p: IntrospectProperty| p.name@),
    }
}

/// How many of an interface's members of one kind are named `member`; none where the
/// interface is not the one asked for.
pub open spec fn interface_matches(
    itf: IntrospectInterface,
    member: Seq<char>,
    iface: Option<Seq<char>>,
    kind: MsgType,
) -> nat {
    let passes = match iface {
        Some(n) => itf.name@ == n,
        None => true,
    };
    if passes {
        sum(item_names(itf, kind).map_values(|x: Seq<char>| if x == member { 1nat } else { 0nat }))
    } else {
        0
    }
}

/// How many members of one kind named `member` a document holds, over its interfaces.
pub open spec fn node_matches(
    node: IntrospectNode,
    member: Seq<char>,
    iface: Option<Seq<char>>,
    kind: MsgType,
) -> nat {
    sum(node.interfaces@.map_values(|i: IntrospectInterface| interface_matches(i, member, iface, kind)))
}

/// How many members of one kind named `member` all the documents hold.
pub open spec fn files_matches(
    files: Seq<IntrospectNode>,
    member: Seq<char>,
    iface: Option<Seq<char>>,
    kind: MsgType,
) -> nat {
    sum(files.map_values(|n: IntrospectNode| node_matches(n, member, iface, kind)))
}

/// The one definition of `member` is in document `f`, interface `k`.
pub open spec fn definition_at(
    files: Seq<IntrospectNode>,
    member: Seq<char>,
    iface: Option<Seq<char>>,
    kind: MsgType,
    f: int,
    k: int,
) -> bool {
    &&& 0 <= f < files.len()
    &&& 0 <= k < files[f].interfaces@.len()
    &&& node_matches(files[f], member, iface, kind) == 1
    &&& interface_matches(files[f].interfaces@[k], member, iface, kind) == 1
}

/// Where a member was found: in which document and under which interface name; or
/// nowhere; or in more than one place.
#[derive(Debug)]
pub enum DefinitionSearch {
    Found(usize, String),
    NotFound,
    Ambiguous,
}

/// The outcome of a search: found exactly where the one definition is, not found
/// where there is none, ambiguous where there are several.
pub open spec fn definition_found(
    files: Seq<IntrospectNode>,
    member: Seq<char>,
    iface: Option<Seq<char>>,
    kind: MsgType,
    r: DefinitionSearch,
) -> bool {
    match r {
        DefinitionSearch::NotFound => files_matches(files, member, iface, kind) == 0,
        DefinitionSearch::Ambiguous => files_matches(files, member, iface, kind) >= 2,
        DefinitionSearch::Found(f, name) => {
            &&& files_matches(files, member, iface, kind) == 1
            &&& exists|k: int|
                #[trigger] definition_at(files, member, iface, kind, f as int, k)
                    && files[f as int].interfaces@[k].name@ == name@
        },
    }
}

fn item_count(itf: &IntrospectInterface, kind: MsgType) -> (r: usize)
    ensures
        r == item_names(*itf, kind).len(),
{
    match kind {
        MsgType::Method => itf.methods.len(),
        MsgType::Signal => itf.signals.len(),
        MsgType::Property => itf.properties.len(),
    }
}

fn item_name(itf: &IntrospectInterface, kind: MsgType, j: usize) -> (r: &String)
    requires
        j < item_names(*itf, kind).len(),
    ensures
        r@ == item_names(*itf, kind)[j as int],
{
    match kind {
        MsgType::Method => &itf.methods[j].name,
        MsgType::Signal => &itf.signals[j].name,
        MsgType::Property => &itf.properties[j].name,
    }
}

/// How many members of one kind in `itf` are named `member`, counted up to two.
fn interface_count(itf: &IntrospectInterface, member: &str, iface: Option<&str>, kind: MsgType) -> (r: u8)
    ensures
        r == at_most_two(interface_matches(*itf, member@, opt_view(iface), kind)),
{
    let passes = match iface {
        Some(n) => text_equal(itf.name.as_str(), n),
        None => true,
    };
    if !passes {
        return 0;
    }
    let ghost ns = item_names(*itf, kind).map_values(
        |x: Seq<char>| if x == member@ { 1nat } else { 0nat },
    );
    let n = item_count(itf, kind);
    let mut total: u8 = 0;
    let mut j: usize = 0;
    while j < n
        invariant
            n == ns.len(),
            ns == item_names(*itf, kind).map_values(
                |x: Seq<char>| if x == member@ { 1nat } else { 0nat },
            ),
            j <= n,
            total == at_most_two(sum(ns.take(j as int))),
        decreases n - j,
    {
        proof {
            lemma_sum_take_step(ns, j as int);
        }
        if text_equal(item_name(itf, kind, j).as_str(), member) {
            total = if total >= 1 { 2 } else { 1 };
        }
        j += 1;
    }
    assert(ns.take(n as int) =~= ns);
    total
}

/// How many members of one kind named `member` a document holds, counted up to two,
/// and, where there is one, the interface that holds it.
fn node_count(node: &IntrospectNode, member: &str, iface: Option<&str>, kind: MsgType) -> (r: (u8, usize))
    ensures
        r.0 == at_most_two(node_matches(*node, member@, opt_view(iface), kind)),
        r.0 == 1 ==> r.1 < node.interfaces@.len() && interface_matches(
            node.interfaces@[r.1 as int],
            member@,
            opt_view(iface),
            kind,
        ) == 1,
{
    let ghost is = node.interfaces@.map_values(
        |i: IntrospectInterface| interface_matches(i, member@, opt_view(iface), kind),
    );
    let mut total: u8 = 0;
    let mut at: usize = 0;
    let mut k: usize = 0;
    while k < node.interfaces.len()
        invariant
            is == node.interfaces@.map_values(
                |i: IntrospectInterface| interface_matches(i, member@, opt_view(iface), kind),
            ),
            k <= node.interfaces@.len(),
            total == at_most_two(sum(is.take(k as int))),
            total == 1 ==> at < k && is[at as int] == 1,
        decreases node.interfaces@.len() - k,
    {
        proof {
            lemma_sum_take_step(is, k as int);
        }
        let c = interface_count(&node.interfaces[k], member, iface, kind);
        if c > 0 {
            if total == 0 && c == 1 {
                at = k;
                total = 1;
            } else {
                total = 2;
            }
        }
        k += 1;
    }
    assert(is.take(k as int) =~= is);
    (total, at)
}

/// Finds the one document and interface that define a member of the given kind,
/// looking only at interfaces named `iface` where that is given.
pub fn find_definition(
    files: &Vec<IntrospectNode>,
    member: &str,
    iface: Option<&str>,
    msg_type: MsgType,
) -> (r: DefinitionSearch)
    ensures
        definition_found(files@, member@, opt_view(iface), msg_type, r),
{
    let ghost fs = files@.map_values(
        |n: IntrospectNode| node_matches(n, member@, opt_view(iface), msg_type),
    );
    let mut total: u8 = 0;
    let mut file_at: usize = 0;
    let mut iface_at: usize = 0;
    let mut f: usize = 0;
    while f < files.len()
        invariant
            fs == files@.map_values(
                |n: IntrospectNode| node_matches(n, member@, opt_view(iface), msg_type),
            ),
            f <= files@.len(),
            total == at_most_two(sum(fs.take(f as int))),
            total == 1 ==> file_at < f && definition_at(
                files@,
                member@,
                opt_view(iface),
                msg_type,
                file_at as int,
                iface_at as int,
            ),
        decreases files@.len() - f,
    {
        proof {
            lemma_sum_take_step(fs, f as int);
        }
        let (c, at) = node_count(&files[f], member, iface, msg_type);
        if c > 0 {
            if total == 0 && c == 1 {
                file_at = f;
                iface_at = at;
                total = 1;
            } else {
                total = 2;
            }
        }
        f += 1;
    }
    assert(fs.take(f as int) =~= fs);
    assert(files_matches(files@, member@, opt_view(iface), msg_type) == sum(fs));
    if total == 0 {
        DefinitionSearch::NotFound
    } else if total == 1 {
        let name = files[file_at].interfaces[iface_at].name.clone();
        let r = DefinitionSearch::Found(file_at, name);
        assert(r matches DefinitionSearch::Found(ff, nn) && ff == file_at && nn@ == name@);
        assert(definition_at(files@, member@, opt_view(iface), msg_type, file_at as int, iface_at as int));
        r
    } else {
        DefinitionSearch::Ambiguous
    }
}

// ---------------------------------------------------------------------------
// Looking a member up across documents
// ---------------------------------------------------------------------------

/// Why a search across documents gave no signature.
#[derive(Debug)]
pub enum SignatureSearchError {
    /// No document defines the member.
    NotFound,
    /// More than one interface defines the member; the interface must be named.
    Ambiguous(MsgType),
    /// The defining interface was found, but the lookup in it failed.
    Lookup(LockstepError),
}

/// The lookup of a member of the given kind in one document.
pub open spec fn kind_lookup(
    node: IntrospectNode,
    interface: Seq<char>,
    member: Seq<char>,
    arg: Option<Seq<char>>,
    kind: MsgType,
    dir: Option<ArgDirection>,
) -> SignatureLookup {
    if kind == MsgType::Property {
        property_lookup(node, interface, member)
    } else {
        member_lookup(node, interface, member, arg, kind, dir)
    }
}

/// The result of the lookup inside a search result.
pub open spec fn lookup_part(r: Result<Signature, SignatureSearchError>) -> Result<
    Signature,
    LockstepError,
> {
    match r {
        Ok(s) => Ok(s),
        Err(SignatureSearchError::Lookup(e)) => Err(e),
        Err(_) => Ok(arbitrary()),
    }
}

/// What a search returns: the lookup in the one interface that defines the member,
/// under that interface's name; an error where no interface or several do.
pub open spec fn search_returns(
    files: Seq<IntrospectNode>,
    member: Seq<char>,
    iface: Option<Seq<char>>,
    arg: Option<Seq<char>>,
    kind: MsgType,
    dir: Option<ArgDirection>,
    r: Result<Signature, SignatureSearchError>,
) -> bool {
    let n = files_matches(files, member, iface, kind);
    if n == 0 {
        r matches Err(SignatureSearchError::NotFound)
    } else if n >= 2 {
        r matches Err(SignatureSearchError::Ambiguous(k)) && k == kind
    } else {
        &&& (r is Ok || r matches Err(SignatureSearchError::Lookup(_)))
        &&& exists|f: int, k: int|
            #[trigger] definition_at(files, member, iface, kind, f, k) && lookup_returns(
                kind_lookup(files[f], files[f].interfaces@[k].name@, member, arg, kind, dir),
                lookup_part(r),
                files[f].interfaces@[k].name@,
                member,
                arg,
            )
    }
}

fn search_signature(
    files: &Vec<IntrospectNode>,
    member: &str,
    interface: Option<&str>,
    argument: Option<&str>,
    kind: MsgType,
    dir: Option<ArgDirection>,
) -> (r: Result<Signature, SignatureSearchError>)
    requires
        kind == MsgType::Property ==> argument is None,
    ensures
        search_returns(files@, member@, opt_view(interface), opt_view(argument), kind, dir, r),
{
    match find_definition(files, member, interface, kind) {
        DefinitionSearch::NotFound => Err(SignatureSearchError::NotFound),
        DefinitionSearch::Ambiguous => Err(SignatureSearchError::Ambiguous(kind)),
        DefinitionSearch::Found(f, name) => {
            let ghost k = choose|k: int|
                #[trigger] definition_at(files@, member@, opt_view(interface), kind, f as int, k)
                    && files@[f as int].interfaces@[k].name@ == name@;
            let found = if kind == MsgType::Property {
                get_property_type_in_node(&files[f], name.as_str(), member)
            } else {
                member_signature(&files[f], name.as_str(), member, argument, kind, dir)
            };
            let r = match found {
                Ok(sig) => Ok(sig),
                Err(e) => Err(SignatureSearchError::Lookup(e)),
            };
            assert(lookup_part(r) == found);
            assert(definition_at(files@, member@, opt_view(interface), kind, f as int, k));
            r
        },
    }
}

/// The signature of a method's return value, found by the method's name alone, or with
/// its interface, or with its interface and the name of an output argument.
pub fn method_return_signature(
    files: &Vec<IntrospectNode>,
    member: &str,
    interface: Option<&str>,
    argument: Option<&str>,
) -> (r: Result<Signature, SignatureSearchError>)
    ensures
        search_returns(
            files@,
            member@,
            opt_view(interface),
            opt_view(argument),
            MsgType::Method,
            Some(ArgDirection::Out),
            r,
        ),
{
    search_signature(files, member, interface, argument, MsgType::Method, Some(ArgDirection::Out))
}

/// The signature of a method's arguments, found by the method's name alone, or with
/// its interface, or with its interface and the name of an input argument.
pub fn method_args_signature(
    files: &Vec<IntrospectNode>,
    member: &str,
    interface: Option<&str>,
    argument: Option<&str>,
) -> (r: Result<Signature, SignatureSearchError>)
    ensures
        search_returns(
            files@,
            member@,
            opt_view(interface),
            opt_view(argument),
            MsgType::Method,
            Some(ArgDirection::In),
            r,
        ),
{
    search_signature(files, member, interface, argument, MsgType::Method, Some(ArgDirection::In))
}

/// The signature of a signal's body, found by the signal's name alone, or with its
/// interface, or with its interface and the name of an argument.
pub fn signal_body_type_signature(
    files: &Vec<IntrospectNode>,
    member: &str,
    interface: Option<&str>,
    argument: Option<&str>,
) -> (r: Result<Signature, SignatureSearchError>)
    ensures
        search_returns(
            files@,
            member@,
            opt_view(interface),
            opt_view(argument),
            MsgType::Signal,
            None,
            r,
        ),
{
    search_signature(files, member, interface, argument, MsgType::Signal, None)
}

/// The signature of a property's type, found by the property's name alone or with its
/// interface.
pub fn property_type_signature(
    files: &Vec<IntrospectNode>,
    member: &str,
    interface: Option<&str>,
) -> (r: Result<Signature, SignatureSearchError>)
    ensures
        search_returns(files@, member@, opt_view(interface), None, MsgType::Property, None, r),
{
    search_signature(files, member, interface, None, MsgType::Property, None)
}

// ---------------------------------------------------------------------------
// Where the XML files are
// ---------------------------------------------------------------------------

/// Where the directory of XML files is taken from.
#[derive(Debug, Clone, Copy, PartialEq, Eq, Structural)]
pub enum XmlPathChoice {
    /// The `LOCKSTEP_XML_PATH` variable.
    Environment,
    /// The path handed to the lookup.
    Argument,
    /// The usual place with this index, the first of them that exists.
    Candidate(usize),
    /// None of the usual places exists.
    NotFound,
}

/// Chooses where the XML files are: the environment variable where it is set, else
/// the path given, else the first of the usual places that exists (`exists` says, in
/// their order, which of them do).
pub fn choose_xml_path(env_set: bool, argument_given: bool, exists: &Vec<bool>) -> (r: XmlPathChoice)
    ensures
        env_set ==> r == XmlPathChoice::Environment,
        !env_set && argument_given ==> r == XmlPathChoice::Argument,
        !env_set && !argument_given ==> match r {
            XmlPathChoice::Candidate(i) => i < exists@.len() && exists@[i as int] && forall|j: int|
                0 <= j < i ==> !#[trigger] exists@[j],
            XmlPathChoice::NotFound => forall|j: int| 0 <= j < exists@.len() ==> !#[trigger] exists@[j],
            _ => false,
        },
{
    if env_set {
        return XmlPathChoice::Environment;
    }
    if argument_given {
        return XmlPathChoice::Argument;
    }
    let mut i: usize = 0;
    while i < exists.len()
        invariant
            !env_set,
            !argument_given,
            i <= exists@.len(),
            forall|j: int| 0 <= j < i ==> !#[trigger] exists@[j],
        decreases exists@.len() - i,
    {
        if exists[i] {
            return XmlPathChoice::Candidate(i);
        }
        i = i + 1;
    }
    XmlPathChoice::NotFound
}

} // verus!
