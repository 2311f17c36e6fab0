use vstd::prelude::*;
use crate::parse_tree::{cpp_parse, CppParser, ParseNode};
use crate::records::{AstError, DeclV, DefinitionInfo, SymbolDeclarationStruct, UsageSymbolInfo, UsageV};
use crate::strkit::{clone_strings, dec_str, spec_join, str_eq, usize_to_string, views, join_scope};

verus! {

/// What surrounds a node, as far as the global-variable rule cares: directly
/// under the translation unit (or a namespace's declaration list), directly
/// under a namespace definition, or anything else.
#[derive(Clone, Copy, PartialEq, Eq, Structural)]
pub enum DeclContext {
    Top,
    Namespace,
    Other,
}

/// The context the children of a node of the given kind live in.
pub open spec fn spec_child_context(kind: Seq<char>, ctx: DeclContext) -> DeclContext {
    if kind == "translation_unit"@ {
        DeclContext::Top
    } else if kind == "namespace_definition"@ {
        DeclContext::Namespace
    } else if kind == "declaration_list"@ && ctx == DeclContext::Namespace {
        DeclContext::Top
    } else {
        DeclContext::Other
    }
}

fn child_context(kind: &String, ctx: DeclContext) -> (r: DeclContext)
    ensures
        r == spec_child_context(kind@, ctx),
{
    if str_eq(kind.as_str(), "translation_unit") {
        DeclContext::Top
    } else if str_eq(kind.as_str(), "namespace_definition") {
        DeclContext::Namespace
    } else if str_eq(kind.as_str(), "declaration_list") && ctx == DeclContext::Namespace {
        DeclContext::Top
    } else {
        DeclContext::Other
    }
}

/// The text of the first child with the given node kind, if any.
pub open spec fn spec_child_text(cs: Seq<ParseNode>, kind: Seq<char>) -> Option<Seq<char>>
    decreases cs,
{
    if cs.len() == 0 {
        None
    } else if cs[0].kind@ == kind {
        Some(cs[0].text@)
    } else {
        spec_child_text(cs.drop_first(), kind)
    }
}

fn child_text_from(cs: &Vec<ParseNode>, i: usize, kind: &str) -> (r: Option<String>)
    requires
        i <= cs.len(),
    ensures
        match r {
            Some(t) => spec_child_text(cs@.skip(i as int), kind@) == Some(t@),
            None => spec_child_text(cs@.skip(i as int), kind@) is None,
        },
    decreases cs.len() - i,
{
    if i == cs.len() {
        proof {
            assert(cs@.skip(i as int) =~= Seq::<ParseNode>::empty());
        }
        None
    } else {
        proof {
            assert(cs@.skip(i as int)[0] == cs@[i as int]);
            assert(cs@.skip(i as int).drop_first() =~= cs@.skip(i + 1));
        }
        if str_eq(cs[i].kind.as_str(), kind) {
            Some(cs[i].text.clone())
        } else {
            child_text_from(cs, i + 1, kind)
        }
    }
}

fn child_text(n: &ParseNode, kind: &str) -> (r: Option<String>)
    ensures
        match r {
            Some(t) => spec_child_text(n.children@, kind@) == Some(t@),
            None => spec_child_text(n.children@, kind@) is None,
        },
{
    let r = child_text_from(&n.children, 0, kind);
    proof {
        assert(n.children@.skip(0) =~= n.children@);
    }
    r
}

/// The scope name a node contributes: a namespace definition contributes its
/// namespace identifier, a class or struct specifier its type identifier.
pub open spec fn spec_scope_frame(n: ParseNode) -> Option<Seq<char>> {
    if n.kind@ == "namespace_definition"@ {
        spec_child_text(n.children@, "namespace_identifier"@)
    } else if n.kind@ == "class_specifier"@ || n.kind@ == "struct_specifier"@ {
        spec_child_text(n.children@, "type_identifier"@)
    } else {
        None
    }
}

fn scope_frame(n: &ParseNode) -> (r: Option<String>)
    ensures
        match r {
            Some(t) => spec_scope_frame(*n) == Some(t@),
            None => spec_scope_frame(*n) is None,
        },
{
    if str_eq(n.kind.as_str(), "namespace_definition") {
        child_text(n, "namespace_identifier")
    } else if str_eq(n.kind.as_str(), "class_specifier") || str_eq(
        n.kind.as_str(),
        "struct_specifier",
    ) {
        child_text(n, "type_identifier")
    } else {
        None
    }
}

/// The chain of scope names contributed by a line of enclosing nodes,
/// outermost first.
pub open spec fn spec_scope_chain(ancestors: Seq<ParseNode>) -> Seq<Seq<char>>
    decreases ancestors,
{
    if ancestors.len() == 0 {
        Seq::empty()
    } else {
        let rest = spec_scope_chain(ancestors.drop_last());
        match spec_scope_frame(ancestors.last()) {
            Some(name) => rest.push(name),
            None => rest,
        }
    }
}

/// The enclosing scope names of a node, given the nodes above it from the
/// root down: namespaces and class or struct specifiers, outermost first.
pub fn get_namespace(ancestors: &Vec<&ParseNode>) -> (r: Vec<String>)
    ensures
        views(r@) == spec_scope_chain(ancestors@.map_values(|p: &ParseNode| *p)),
{
    let ghost ancs = ancestors@.map_values(|p: &ParseNode| *p);
    let mut out: Vec<String> = Vec::new();
    let mut i: usize = 0;
    while i < ancestors.len()
        invariant
            i <= ancestors.len(),
            ancs == ancestors@.map_values(|p: &ParseNode| *p),
            views(out@) == spec_scope_chain(ancs.take(i as int)),
        decreases ancestors.len() - i,
    {
        proof {
            assert(ancs.take(i + 1).drop_last() =~= ancs.take(i as int));
            assert(ancs.take(i + 1).last() == ancs[i as int]);
        }
        match scope_frame(ancestors[i]) {
            Some(name) => {
                out.push(name);
                proof {
                    assert(views(out@) =~= spec_scope_chain(ancs.take(i + 1)));
                }
            },
            None => {},
        }
        i = i + 1;
    }
    proof {
        assert(ancs.take(ancs.len() as int) =~= ancs);
    }
    out
}

/// The name and scope segments collected from a qualified identifier or
/// template type: type identifiers become scope segments, the identifier
/// becomes the name, nested qualified parts are walked in turn.
pub open spec fn spec_qualified_fold(
    cs: Seq<ParseNode>,
    name: Seq<char>,
    scope: Seq<Seq<char>>,
) -> (Seq<char>, Seq<Seq<char>>)
    decreases cs,
{
    if cs.len() == 0 {
        (name, scope)
    } else {
        let c = cs[0];
        if c.kind@ == "identifier"@ {
            spec_qualified_fold(cs.drop_first(), c.text@, scope)
        } else if c.kind@ == "qualified_identifier"@ || c.kind@ == "template_type"@ {
            let inner = spec_qualified(c);
            spec_qualified_fold(cs.drop_first(), inner.0, scope + inner.1)
        } else if c.kind@ == "type_identifier"@ {
            spec_qualified_fold(cs.drop_first(), name, scope.push(c.text@))
        } else {
            spec_qualified_fold(cs.drop_first(), name, scope)
        }
    }
}

pub open spec fn spec_qualified(n: ParseNode) -> (Seq<char>, Seq<Seq<char>>)
    decreases n,
{
    spec_qualified_fold(n.children@, Seq::empty(), Seq::empty())
}

fn qualified_fold(
    cs: &Vec<ParseNode>,
    i: usize,
    name: String,
    scope: Vec<String>,
) -> (r: (String, Vec<String>))
    requires
        i <= cs.len(),
    ensures
        ({
            let s = spec_qualified_fold(cs@.skip(i as int), name@, views(scope@));
            r.0@ == s.0 && views(r.1@) == s.1
        }),
    decreases cs@, cs.len() - i,
{
    if i == cs.len() {
        proof {
            assert(cs@.skip(i as int) =~= Seq::<ParseNode>::empty());
        }
        (name, scope)
    } else {
        proof {
            assert(cs@.skip(i as int)[0] == cs@[i as int]);
            assert(cs@.skip(i as int).drop_first() =~= cs@.skip(i + 1));
        }
        let c = &cs[i];
        if str_eq(c.kind.as_str(), "identifier") {
            qualified_fold(cs, i + 1, c.text.clone(), scope)
        } else if str_eq(c.kind.as_str(), "qualified_identifier") || str_eq(
            c.kind.as_str(),
            "template_type",
        ) {
            let (n2, s2) = get_function_name_and_scope_req(c);
            let mut scope2 = scope;
            let mut j: usize = 0;
            let ghost old_scope2 = views(scope2@);
            proof {
                assert(old_scope2 + views(s2@).take(0) =~= old_scope2);
            }
            while j < s2.len()
                invariant
                    j <= s2.len(),
                    views(scope2@) == old_scope2 + views(s2@).take(j as int),
                decreases s2.len() - j,
            {
                let ghost prev = views(scope2@);
                scope2.push(s2[j].clone());
                proof {
                    let b = views(s2@);
                    assert(views(scope2@) =~= prev.push(s2@[j as int]@));
                    assert(b.take(j + 1) =~= b.take(j as int).push(b[j as int]));
                    assert(b[j as int] == s2@[j as int]@);
                    assert((old_scope2 + b.take(j as int)).push(b[j as int]) =~= old_scope2
                        + b.take(j as int).push(b[j as int]));
                }
                j = j + 1;
            }
            proof {
                assert(views(s2@).take(s2@.len() as int) =~= views(s2@));
            }
            qualified_fold(cs, i + 1, n2, scope2)
        } else if str_eq(c.kind.as_str(), "type_identifier") {
            let mut scope2 = scope;
            scope2.push(c.text.clone());
            proof {
                assert(views(scope2@) =~= views(scope@).push(c.text@));
            }
            qualified_fold(cs, i + 1, name, scope2)
        } else {
            qualified_fold(cs, i + 1, name, scope)
        }
    }
}

/// Collects the function name and its written scope from a qualified
/// identifier node.
pub fn get_function_name_and_scope_req(n: &ParseNode) -> (r: (String, Vec<String>))
    ensures
        ({
            let s = spec_qualified(*n);
            r.0@ == s.0 && views(r.1@) == s.1
        }),
    decreases *n,
{
    let r = qualified_fold(&n.children, 0, String::new(), Vec::new());
    proof {
        assert(n.children@.skip(0) =~= n.children@);
        assert(views(Seq::<String>::empty()) =~= Seq::<Seq<char>>::empty());
    }
    r
}

/// What a function definition is called, and the scope written with the
/// name: the first identifier or qualified identifier inside the first
/// function declarator that has one.
pub open spec fn spec_fn_name_inner(cs: Seq<ParseNode>) -> Option<(Seq<char>, Seq<Seq<char>>)>
    decreases cs,
{
    if cs.len() == 0 {
        None
    } else if cs[0].kind@ == "identifier"@ {
        Some((cs[0].text@, Seq::empty()))
    } else if cs[0].kind@ == "qualified_identifier"@ {
        Some(spec_qualified(cs[0]))
    } else {
        spec_fn_name_inner(cs.drop_first())
    }
}

pub open spec fn spec_fn_name_outer(cs: Seq<ParseNode>) -> (Seq<char>, Seq<Seq<char>>)
    decreases cs,
{
    if cs.len() == 0 {
        (Seq::empty(), Seq::empty())
    } else if cs[0].kind@ == "function_declarator"@ {
        match spec_fn_name_inner(cs[0].children@) {
            Some(r) => r,
            None => spec_fn_name_outer(cs.drop_first()),
        }
    } else {
        spec_fn_name_outer(cs.drop_first())
    }
}

pub open spec fn spec_fn_name_scope(n: ParseNode) -> (Seq<char>, Seq<Seq<char>>) {
    spec_fn_name_outer(n.children@)
}

fn fn_name_inner(cs: &Vec<ParseNode>, i: usize) -> (r: Option<(String, Vec<String>)>)
    requires
        i <= cs.len(),
    ensures
        match r {
            Some(p) => (match spec_fn_name_inner(cs@.skip(i as int)) {
                Some(s) => p.0@ == s.0 && views(p.1@) == s.1,
                None => false,
            }),
            None => (spec_fn_name_inner(cs@.skip(i as int)) is None),
        },
    decreases cs.len() - i,
{
    if i == cs.len() {
        proof {
            assert(cs@.skip(i as int) =~= Seq::<ParseNode>::empty());
        }
        None
    } else {
        proof {
            assert(cs@.skip(i as int)[0] == cs@[i as int]);
            assert(cs@.skip(i as int).drop_first() =~= cs@.skip(i + 1));
        }
        if str_eq(cs[i].kind.as_str(), "identifier") {
            proof {
                assert(views(Seq::<String>::empty()) =~= Seq::<Seq<char>>::empty());
            }
            Some((cs[i].text.clone(), Vec::new()))
        } else if str_eq(cs[i].kind.as_str(), "qualified_identifier") {
            Some(get_function_name_and_scope_req(&cs[i]))
        } else {
            fn_name_inner(cs, i + 1)
        }
    }
}

fn fn_name_outer(cs: &Vec<ParseNode>, i: usize) -> (r: (String, Vec<String>))
    requires
        i <= cs.len(),
    ensures
        ({
            let s = spec_fn_name_outer(cs@.skip(i as int));
            r.0@ == s.0 && views(r.1@) == s.1
        }),
    decreases cs.len() - i,
{
    if i == cs.len() {
        proof {
            assert(cs@.skip(i as int) =~= Seq::<ParseNode>::empty());
            assert(views(Seq::<String>::empty()) =~= Seq::<Seq<char>>::empty());
        }
        (String::new(), Vec::new())
    } else {
        proof {
            assert(cs@.skip(i as int)[0] == cs@[i as int]);
            assert(cs@.skip(i as int).drop_first() =~= cs@.skip(i + 1));
        }
        if str_eq(cs[i].kind.as_str(), "function_declarator") {
            match fn_name_inner(&cs[i].children, 0) {
                Some(p) => {
                    proof {
                        assert(cs@[i as int].children@.skip(0) =~= cs@[i as int].children@);
                    }
                    p
                },
                None => {
                    proof {
                        assert(cs@[i as int].children@.skip(0) =~= cs@[i as int].children@);
                    }
                    fn_name_outer(cs, i + 1)
                },
            }
        } else {
            fn_name_outer(cs, i + 1)
        }
    }
}

/// The name a function definition declares, with the scope segments written
/// as part of a qualified name.
pub fn get_function_name_and_scope(n: &ParseNode) -> (r: (String, Vec<String>))
    ensures
        ({
            let s = spec_fn_name_scope(*n);
            r.0@ == s.0 && views(r.1@) == s.1
        }),
{
    let r = fn_name_outer(&n.children, 0);
    proof {
        assert(n.children@.skip(0) =~= n.children@);
    }
    r
}

/// The variable name a declaration introduces: the first identifier inside
/// the first init declarator that has one.
pub open spec fn spec_var_name_inner(cs: Seq<ParseNode>) -> Option<Seq<char>>
    decreases cs,
{
    if cs.len() == 0 {
        None
    } else if cs[0].kind@ == "identifier"@ {
        Some(cs[0].text@)
    } else {
        spec_var_name_inner(cs.drop_first())
    }
}

pub open spec fn spec_var_name_outer(cs: Seq<ParseNode>) -> Seq<char>
    decreases cs,
{
    if cs.len() == 0 {
        Seq::empty()
    } else if cs[0].kind@ == "init_declarator"@ {
        match spec_var_name_inner(cs[0].children@) {
            Some(t) => t,
            None => spec_var_name_outer(cs.drop_first()),
        }
    } else {
        spec_var_name_outer(cs.drop_first())
    }
}

pub open spec fn spec_var_name(n: ParseNode) -> Seq<char> {
    spec_var_name_outer(n.children@)
}

fn var_name_inner(cs: &Vec<ParseNode>, i: usize) -> (r: Option<String>)
    requires
        i <= cs.len(),
    ensures
        match r {
            Some(t) => spec_var_name_inner(cs@.skip(i as int)) == Some(t@),
            None => (spec_var_name_inner(cs@.skip(i as int)) is None),
        },
    decreases cs.len() - i,
{
    if i == cs.len() {
        proof {
            assert(cs@.skip(i as int) =~= Seq::<ParseNode>::empty());
        }
        None
    } else {
        proof {
            assert(cs@.skip(i as int)[0] == cs@[i as int]);
            assert(cs@.skip(i as int).drop_first() =~= cs@.skip(i + 1));
        }
        if str_eq(cs[i].kind.as_str(), "identifier") {
            Some(cs[i].text.clone())
        } else {
            var_name_inner(cs, i + 1)
        }
    }
}

fn var_name_outer(cs: &Vec<ParseNode>, i: usize) -> (r: String)
    requires
        i <= cs.len(),
    ensures
        r@ == spec_var_name_outer(cs@.skip(i as int)),
    decreases cs.len() - i,
{
    if i == cs.len() {
        proof {
            assert(cs@.skip(i as int) =~= Seq::<ParseNode>::empty());
        }
        String::new()
    } else {
        proof {
            assert(cs@.skip(i as int)[0] == cs@[i as int]);
            assert(cs@.skip(i as int).drop_first() =~= cs@.skip(i + 1));
        }
        if str_eq(cs[i].kind.as_str(), "init_declarator") {
            match var_name_inner(&cs[i].children, 0) {
                Some(t) => {
                    proof {
                        assert(cs@[i as int].children@.skip(0) =~= cs@[i as int].children@);
                    }
                    t
                },
                None => {
                    proof {
                        assert(cs@[i as int].children@.skip(0) =~= cs@[i as int].children@);
                    }
                    var_name_outer(cs, i + 1)
                },
            }
        } else {
            var_name_outer(cs, i + 1)
        }
    }
}

/// The name a variable declaration introduces, or the empty string.
pub fn get_variable_name(n: &ParseNode) -> (r: String)
    ensures
        r@ == spec_var_name(*n),
{
    let r = var_name_outer(&n.children, 0);
    proof {
        assert(n.children@.skip(0) =~= n.children@);
    }
    r
}

/// The identifiers two levels below a node: each enumerator's identifier
/// inside an enumerator list.
pub open spec fn spec_idents_level1(cs: Seq<ParseNode>) -> Seq<Seq<char>>
    decreases cs,
{
    if cs.len() == 0 {
        Seq::empty()
    } else {
        let rest = spec_idents_level1(cs.drop_last());
        if cs.last().kind@ == "identifier"@ {
            rest.push(cs.last().text@)
        } else {
            rest
        }
    }
}

pub open spec fn spec_idents_level2(cs: Seq<ParseNode>) -> Seq<Seq<char>>
    decreases cs,
{
    if cs.len() == 0 {
        Seq::empty()
    } else {
        spec_idents_level2(cs.drop_last()) + spec_idents_level1(cs.last().children@)
    }
}

fn idents_level1_into(cs: &Vec<ParseNode>, out: &mut Vec<String>)
    ensures
        views(final(out)@) == views(old(out)@) + spec_idents_level1(cs@),
{
    let mut i: usize = 0;
    proof {
        assert(cs@.take(0) =~= Seq::<ParseNode>::empty());
        assert(views(out@) + spec_idents_level1(cs@.take(0)) =~= views(out@));
    }
    while i < cs.len()
        invariant
            i <= cs.len(),
            views(out@) == views(old(out)@) + spec_idents_level1(cs@.take(i as int)),
        decreases cs.len() - i,
    {
        let ghost prev = views(out@);
        proof {
            assert(cs@.take(i + 1).drop_last() =~= cs@.take(i as int));
            assert(cs@.take(i + 1).last() == cs@[i as int]);
        }
        if str_eq(cs[i].kind.as_str(), "identifier") {
            out.push(cs[i].text.clone());
            proof {
                assert(views(out@) =~= prev.push(cs@[i as int].text@));
                assert(spec_idents_level1(cs@.take(i + 1)) == spec_idents_level1(
                    cs@.take(i as int),
                ).push(cs@[i as int].text@));
                assert(views(old(out)@) + spec_idents_level1(cs@.take(i as int)).push(
                    cs@[i as int].text@,
                ) =~= (views(old(out)@) + spec_idents_level1(cs@.take(i as int))).push(
                    cs@[i as int].text@,
                ));
            }
        }
        i = i + 1;
    }
    proof {
        assert(cs@.take(cs@.len() as int) =~= cs@);
    }
}

fn idents_level2_into(cs: &Vec<ParseNode>, out: &mut Vec<String>)
    ensures
        views(final(out)@) == views(old(out)@) + spec_idents_level2(cs@),
{
    let mut i: usize = 0;
    proof {
        assert(cs@.take(0) =~= Seq::<ParseNode>::empty());
        assert(views(out@) + spec_idents_level2(cs@.take(0)) =~= views(out@));
    }
    while i < cs.len()
        invariant
            i <= cs.len(),
            views(out@) == views(old(out)@) + spec_idents_level2(cs@.take(i as int)),
        decreases cs.len() - i,
    {
        proof {
            assert(cs@.take(i + 1).drop_last() =~= cs@.take(i as int));
            assert(cs@.take(i + 1).last() == cs@[i as int]);
        }
        idents_level1_into(&cs[i].children, out);
        proof {
            assert(views(old(out)@) + spec_idents_level2(cs@.take(i as int)) + spec_idents_level1(
                cs@[i as int].children@,
            ) =~= views(old(out)@) + spec_idents_level2(cs@.take(i + 1)));
        }
        i = i + 1;
    }
    proof {
        assert(cs@.take(cs@.len() as int) =~= cs@);
    }
}

/// The identifiers three levels below the given nodes: for an enum
/// specifier's children, each enumerator's identifier inside the enumerator
/// list.
pub open spec fn spec_idents_level3(cs: Seq<ParseNode>) -> Seq<Seq<char>>
    decreases cs,
{
    if cs.len() == 0 {
        Seq::empty()
    } else {
        spec_idents_level3(cs.drop_last()) + spec_idents_level2(cs.last().children@)
    }
}

fn idents_level3(cs: &Vec<ParseNode>) -> (r: Vec<String>)
    ensures
        views(r@) == spec_idents_level3(cs@),
{
    let mut out: Vec<String> = Vec::new();
    let mut i: usize = 0;
    proof {
        assert(cs@.take(0) =~= Seq::<ParseNode>::empty());
        assert(views(out@) =~= spec_idents_level3(cs@.take(0)));
    }
    while i < cs.len()
        invariant
            i <= cs.len(),
            views(out@) == spec_idents_level3(cs@.take(i as int)),
        decreases cs.len() - i,
    {
        proof {
            assert(cs@.take(i + 1).drop_last() =~= cs@.take(i as int));
            assert(cs@.take(i + 1).last() == cs@[i as int]);
        }
        idents_level2_into(&cs[i].children, &mut out);
        i = i + 1;
    }
    proof {
        assert(cs@.take(cs@.len() as int) =~= cs@);
    }
    out
}

/// The name of an enum and its variant names. A named enum carries its name
/// on its specifier's type identifier; a declaration with an anonymous enum
/// type takes the declared variable's identifier as the name. The variants
/// are the identifiers of the enumerators.
pub open spec fn spec_enum_name_values(n: ParseNode) -> (Seq<char>, Seq<Seq<char>>) {
    if n.kind@ == "enum_specifier"@ {
        let name = match spec_child_text(n.children@, "type_identifier"@) {
            Some(t) => t,
            None => Seq::empty(),
        };
        (name, spec_idents_level3(n.children@))
    } else {
        match spec_enum_child(n.children@) {
            Some(es) => {
                let name = match spec_child_text(n.children@, "identifier"@) {
                    Some(t) => t,
                    None => (match spec_child_text(es.children@, "type_identifier"@) {
                        Some(t) => t,
                        None => Seq::empty(),
                    }),
                };
                (name, spec_idents_level3(es.children@))
            },
            None => (Seq::empty(), Seq::empty()),
        }
    }
}

/// The first enum specifier child of a node.
pub open spec fn spec_enum_child(cs: Seq<ParseNode>) -> Option<ParseNode>
    decreases cs,
{
    if cs.len() == 0 {
        None
    } else if cs[0].kind@ == "enum_specifier"@ {
        Some(cs[0])
    } else {
        spec_enum_child(cs.drop_first())
    }
}

fn enum_child_from(cs: &Vec<ParseNode>, i: usize) -> (r: Option<&ParseNode>)
    requires
        i <= cs.len(),
    ensures
        match r {
            Some(n) => spec_enum_child(cs@.skip(i as int)) == Some(*n),
            None => (spec_enum_child(cs@.skip(i as int)) is None),
        },
    decreases cs.len() - i,
{
    if i == cs.len() {
        proof {
            assert(cs@.skip(i as int) =~= Seq::<ParseNode>::empty());
        }
        None
    } else {
        proof {
            assert(cs@.skip(i as int)[0] == cs@[i as int]);
            assert(cs@.skip(i as int).drop_first() =~= cs@.skip(i + 1));
        }
        if str_eq(cs[i].kind.as_str(), "enum_specifier") {
            Some(&cs[i])
        } else {
            enum_child_from(cs, i + 1)
        }
    }
}

/// The enum's name and every variant name it declares.
pub fn get_enum_name_and_all_values(n: &ParseNode) -> (r: (String, Vec<String>))
    ensures
        ({
            let s = spec_enum_name_values(*n);
            r.0@ == s.0 && views(r.1@) == s.1
        }),
{
    if str_eq(n.kind.as_str(), "enum_specifier") {
        let name = match child_text(n, "type_identifier") {
            Some(t) => t,
            None => String::new(),
        };
        let values = idents_level3(&n.children);
        (name, values)
    } else {
        match enum_child_from(&n.children, 0) {
            Some(es) => {
                proof {
                    assert(n.children@.skip(0) =~= n.children@);
                }
                let name = match child_text(n, "identifier") {
                    Some(t) => t,
                    None => (match child_text(es, "type_identifier") {
                        Some(t) => t,
                        None => String::new(),
                    }),
                };
                let values = idents_level3(&es.children);
                (name, values)
            },
            None => {
                proof {
                    assert(n.children@.skip(0) =~= n.children@);
                    assert(views(Seq::<String>::empty()) =~= Seq::<Seq<char>>::empty());
                }
                (String::new(), Vec::new())
            },
        }
    }
}

pub open spec fn pair_views(s: Seq<(String, SymbolDeclarationStruct)>) -> Seq<(Seq<char>, DeclV)> {
    s.map_values(|p: (String, SymbolDeclarationStruct)| (p.0@, p.1@))
}

/// The declaration record a single node yields, if any: a function
/// definition, a named class, struct or enum specifier, a declaration with
/// an enum type, or a declaration with an initialized declarator at the top
/// level of the translation unit or of a namespace body.
pub open spec fn spec_own_decl(
    n: ParseNode,
    scope: Seq<Seq<char>>,
    ctx: DeclContext,
    file: Seq<char>,
) -> Option<(Seq<char>, DeclV)> {
    if n.kind@ == "function_definition"@ {
        let fd = spec_fn_name_scope(n);
        if fd.0.len() > 0 {
            Some(spec_decl_pair(n, scope + fd.1, fd.0, "function"@, Seq::empty(), file))
        } else {
            None
        }
    } else if n.kind@ == "class_specifier"@ || n.kind@ == "struct_specifier"@ {
        let kind = if n.kind@ == "class_specifier"@ {
            "class"@
        } else {
            "struct"@
        };
        match spec_child_text(n.children@, "type_identifier"@) {
            Some(name) => Some(spec_decl_pair(n, scope, name, kind, Seq::empty(), file)),
            None => None,
        }
    } else if n.kind@ == "enum_specifier"@ {
        match spec_child_text(n.children@, "type_identifier"@) {
            Some(name) => Some(
                spec_decl_pair(n, scope, name, "enum"@, spec_idents_level3(n.children@), file),
            ),
            None => None,
        }
    } else if n.kind@ == "declaration"@ {
        if spec_enum_child(n.children@) is Some {
            let ev = spec_enum_name_values(n);
            if ev.0.len() > 0 {
                Some(spec_decl_pair(n, scope, ev.0, "enum"@, ev.1, file))
            } else {
                None
            }
        } else if ctx == DeclContext::Top && spec_var_name(n).len() > 0 {
            Some(spec_decl_pair(n, scope, spec_var_name(n), "global_variable"@, Seq::empty(), file))
        } else {
            None
        }
    } else {
        None
    }
}

/// A symbol path and record for a declaration found at a node.
pub open spec fn spec_decl_pair(
    n: ParseNode,
    scope: Seq<Seq<char>>,
    name: Seq<char>,
    kind: Seq<char>,
    enum_values: Seq<Seq<char>>,
    file: Seq<char>,
) -> (Seq<char>, DeclV) {
    let path = spec_join(scope, name);
    (
        path,
        DeclV {
            name: name,
            kind: kind,
            meta_path: path,
            file: file,
            range: n.range,
            enum_values: enum_values,
            content: n.text@,
        },
    )
}

fn make_decl(
    n: &ParseNode,
    scope: &Vec<String>,
    name: String,
    kind: &str,
    enum_values: Vec<String>,
    file: &String,
) -> (r: (String, SymbolDeclarationStruct))
    ensures
        (r.0@, r.1@) == spec_decl_pair(*n, views(scope@), name@, kind@, views(enum_values@), file@),
{
    let path = join_scope(scope, name.as_str());
    let record = SymbolDeclarationStruct {
        name,
        kind: String::from_str(kind),
        meta_path: path.clone(),
        definition_info: DefinitionInfo { path: file.clone(), range: n.range },
        enum_values,
        content: n.text.clone(),
    };
    (path, record)
}

fn own_decl(n: &ParseNode, scope: &Vec<String>, ctx: DeclContext, file: &String) -> (r: Option<
    (String, SymbolDeclarationStruct),
>)
    ensures
        match r {
            Some(p) => spec_own_decl(*n, views(scope@), ctx, file@) == Some((p.0@, p.1@)),
            None => (spec_own_decl(*n, views(scope@), ctx, file@) is None),
        },
{
    if str_eq(n.kind.as_str(), "function_definition") {
        let (name, fscope) = get_function_name_and_scope(n);
        if name.as_str().unicode_len() > 0 {
            let mut full = clone_strings(scope);
            let mut j: usize = 0;
            let ghost base = views(full@);
            proof {
                assert(base + views(fscope@).take(0) =~= base);
            }
            while j < fscope.len()
                invariant
                    j <= fscope.len(),
                    views(full@) == base + views(fscope@).take(j as int),
                decreases fscope.len() - j,
            {
                let ghost prev = views(full@);
                full.push(fscope[j].clone());
                proof {
                    let b = views(fscope@);
                    assert(views(full@) =~= prev.push(fscope@[j as int]@));
                    assert(b.take(j + 1) =~= b.take(j as int).push(b[j as int]));
                    assert((base + b.take(j as int)).push(b[j as int]) =~= base + b.take(
                        j as int,
                    ).push(b[j as int]));
                }
                j = j + 1;
            }
            proof {
                assert(views(fscope@).take(fscope@.len() as int) =~= views(fscope@));
                assert(views(full@) == views(scope@) + views(fscope@));
            }
            let empty_vals: Vec<String> = Vec::new();
            proof {
                assert(views(empty_vals@) =~= Seq::<Seq<char>>::empty());
            }
            Some(make_decl(n, &full, name, "function", empty_vals, file))
        } else {
            None
        }
    } else if str_eq(n.kind.as_str(), "class_specifier") || str_eq(
        n.kind.as_str(),
        "struct_specifier",
    ) {
        let kind: &str = if str_eq(n.kind.as_str(), "class_specifier") {
            "class"
        } else {
            "struct"
        };
        match child_text(n, "type_identifier") {
            Some(name) => {
                let empty_vals: Vec<String> = Vec::new();
                proof {
                    assert(views(empty_vals@) =~= Seq::<Seq<char>>::empty());
                }
                Some(make_decl(n, scope, name, kind, empty_vals, file))
            },
            None => None,
        }
    } else if str_eq(n.kind.as_str(), "enum_specifier") {
        match child_text(n, "type_identifier") {
            Some(name) => {
                let values = idents_level3(&n.children);
                Some(make_decl(n, scope, name, "enum", values, file))
            },
            None => None,
        }
    } else if str_eq(n.kind.as_str(), "declaration") {
        let has_enum = match enum_child_from(&n.children, 0) {
            Some(_) => true,
            None => false,
        };
        proof {
            assert(n.children@.skip(0) =~= n.children@);
        }
        if has_enum {
            let (name, values) = get_enum_name_and_all_values(n);
            if name.as_str().unicode_len() > 0 {
                Some(make_decl(n, scope, name, "enum", values, file))
            } else {
                None
            }
        } else if ctx == DeclContext::Top {
            let name = get_variable_name(n);
            if name.as_str().unicode_len() > 0 {
                let empty_vals: Vec<String> = Vec::new();
                proof {
                    assert(views(empty_vals@) =~= Seq::<Seq<char>>::empty());
                }
                Some(make_decl(n, scope, name, "global_variable", empty_vals, file))
            } else {
                None
            }
        } else {
            None
        }
    } else {
        None
    }
}

/// All declarations found at or below a node, in walk order. The enclosing
/// scope is read off the ancestor chain; the context tells whether the node
/// sits where the global-variable rule applies.
pub open spec fn spec_node_decls(
    n: ParseNode,
    ancestors: Seq<ParseNode>,
    ctx: DeclContext,
    file: Seq<char>,
) -> Seq<(Seq<char>, DeclV)>
    decreases n,
{
    let own = match spec_own_decl(n, spec_scope_chain(ancestors), ctx, file) {
        Some(p) => seq![p],
        None => Seq::empty(),
    };
    own + spec_children_decls(
        n.children@,
        ancestors.push(n),
        spec_child_context(n.kind@, ctx),
        file,
    )
}

pub open spec fn spec_children_decls(
    cs: Seq<ParseNode>,
    ancestors: Seq<ParseNode>,
    ctx: DeclContext,
    file: Seq<char>,
) -> Seq<(Seq<char>, DeclV)>
    decreases cs,
{
    if cs.len() == 0 {
        Seq::empty()
    } else {
        spec_children_decls(cs.drop_last(), ancestors, ctx, file) + spec_node_decls(
            cs.last(),
            ancestors,
            ctx,
            file,
        )
    }
}

/// Every declaration of a parsed file: the walk starts at the root with no
/// enclosing scope.
pub open spec fn spec_decls(root: ParseNode, file: Seq<char>) -> Seq<(Seq<char>, DeclV)> {
    spec_node_decls(root, Seq::empty(), DeclContext::Other, file)
}

fn walk_decls<'a>(
    n: &'a ParseNode,
    ancestors: &mut Vec<&'a ParseNode>,
    ctx: DeclContext,
    file: &String,
    out: &mut Vec<(String, SymbolDeclarationStruct)>,
)
    ensures
        final(ancestors)@ == old(ancestors)@,
        pair_views(final(out)@) == pair_views(old(out)@) + spec_node_decls(
            *n,
            old(ancestors)@.map_values(|p: &ParseNode| *p),
            ctx,
            file@,
        ),
    decreases *n,
{
    let ghost ancs = ancestors@.map_values(|p: &ParseNode| *p);
    let scope = get_namespace(ancestors);
    match own_decl(n, &scope, ctx, file) {
        Some(p) => {
            let ghost prev = pair_views(out@);
            let ghost pv = (p.0@, p.1@);
            out.push(p);
            proof {
                assert(pair_views(out@) =~= prev.push(pv));
                assert(pair_views(old(out)@) + seq![pv] =~= prev.push(pv));
            }
        },
        None => {
            proof {
                assert(pair_views(out@) + Seq::<(Seq<char>, DeclV)>::empty() =~= pair_views(out@));
            }
        },
    }
    let ghost after_own = pair_views(out@);
    let cctx = child_context(&n.kind, ctx);
    let ghost snap = ancestors@;
    ancestors.push(n);
    proof {
        assert(ancestors@.map_values(|p: &ParseNode| *p) =~= ancs.push(*n));
    }
    let mut i: usize = 0;
    proof {
        assert(n.children@.take(0) =~= Seq::<ParseNode>::empty());
        assert(after_own + spec_children_decls(n.children@.take(0), ancs.push(*n), cctx, file@)
            =~= after_own);
    }
    while i < n.children.len()
        invariant
            i <= n.children.len(),
            ancestors@ == snap.push(n),
            ancestors@.map_values(|p: &ParseNode| *p) == ancs.push(*n),
            pair_views(out@) == after_own + spec_children_decls(
                n.children@.take(i as int),
                ancs.push(*n),
                cctx,
                file@,
            ),
        decreases n.children.len() - i,
    {
        walk_decls(&n.children[i], ancestors, cctx, file, out);
        proof {
            assert(n.children@.take(i + 1).drop_last() =~= n.children@.take(i as int));
            assert(n.children@.take(i + 1).last() == n.children@[i as int]);
        }
        i = i + 1;
    }
    proof {
        assert(n.children@.take(n.children@.len() as int) =~= n.children@);
    }
    let _ = ancestors.pop();
    proof {
        assert(snap.push(n).drop_last() =~= snap);
        assert(ancestors@ =~= old(ancestors)@);
    }
}

impl CppParser {
    /// Parses the text and collects every declaration, paired with its
    /// symbol path. The prior state of any index is not touched on failure:
    /// a failed parse only returns the error.
    pub fn parse_declarations(&mut self, text: &str, path: &String) -> (r: Result<
        Vec<(String, SymbolDeclarationStruct)>,
        AstError,
    >)
        ensures
            match r {
                Ok(ds) => (cpp_parse(text@) matches Some(root) && pair_views(ds@) == spec_decls(
                    root,
                    path@,
                )),
                Err(e) => e == AstError::ParseError && cpp_parse(text@) is None,
            },
    {
        match self.parse_tree(text) {
            None => Err(AstError::ParseError),
            Some(root) => {
                let mut out: Vec<(String, SymbolDeclarationStruct)> = Vec::new();
                let mut ancestors: Vec<&ParseNode> = Vec::new();
                proof {
                    assert(ancestors@.map_values(|p: &ParseNode| *p) =~= Seq::<ParseNode>::empty());
                    assert(pair_views(out@) =~= Seq::<(Seq<char>, DeclV)>::empty());
                }
                walk_decls(&root, &mut ancestors, DeclContext::Other, path, &mut out);
                proof {
                    assert(Seq::<(Seq<char>, DeclV)>::empty() + spec_decls(root, path@)
                        =~= spec_decls(root, path@));
                }
                Ok(out)
            },
        }
    }
}


pub open spec fn usage_views(s: Seq<UsageSymbolInfo>) -> Seq<UsageV> {
    s.map_values(|u: UsageSymbolInfo| u@)
}

/// The first child node with the given kind, if any.
pub open spec fn spec_child_node(cs: Seq<ParseNode>, kind: Seq<char>) -> Option<ParseNode>
    decreases cs,
{
    if cs.len() == 0 {
        None
    } else if cs[0].kind@ == kind {
        Some(cs[0])
    } else {
        spec_child_node(cs.drop_first(), kind)
    }
}

fn child_node_from<'a>(cs: &'a Vec<ParseNode>, i: usize, kind: &str) -> (r: Option<&'a ParseNode>)
    requires
        i <= cs.len(),
    ensures
        match r {
            Some(n) => spec_child_node(cs@.skip(i as int), kind@) == Some(*n),
            None => (spec_child_node(cs@.skip(i as int), kind@) is None),
        },
    decreases cs.len() - i,
{
    if i == cs.len() {
        proof {
            assert(cs@.skip(i as int) =~= Seq::<ParseNode>::empty());
        }
        None
    } else {
        proof {
            assert(cs@.skip(i as int)[0] == cs@[i as int]);
            assert(cs@.skip(i as int).drop_first() =~= cs@.skip(i + 1));
        }
        if str_eq(cs[i].kind.as_str(), kind) {
            Some(&cs[i])
        } else {
            child_node_from(cs, i + 1, kind)
        }
    }
}

/// The identifier written at a call site: a plain identifier child, or the
/// field identifier of a field expression.
pub open spec fn spec_call_name(cs: Seq<ParseNode>) -> Option<Seq<char>>
    decreases cs,
{
    if cs.len() == 0 {
        None
    } else if cs[0].kind@ == "identifier"@ {
        Some(cs[0].text@)
    } else if cs[0].kind@ == "field_expression"@ {
        match spec_child_text(cs[0].children@, "field_identifier"@) {
            Some(t) => Some(t),
            None => spec_call_name(cs.drop_first()),
        }
    } else {
        spec_call_name(cs.drop_first())
    }
}

fn call_name_from(cs: &Vec<ParseNode>, i: usize) -> (r: Option<String>)
    requires
        i <= cs.len(),
    ensures
        match r {
            Some(t) => spec_call_name(cs@.skip(i as int)) == Some(t@),
            None => (spec_call_name(cs@.skip(i as int)) is None),
        },
    decreases cs.len() - i,
{
    if i == cs.len() {
        proof {
            assert(cs@.skip(i as int) =~= Seq::<ParseNode>::empty());
        }
        None
    } else {
        proof {
            assert(cs@.skip(i as int)[0] == cs@[i as int]);
            assert(cs@.skip(i as int).drop_first() =~= cs@.skip(i + 1));
        }
        if str_eq(cs[i].kind.as_str(), "identifier") {
            Some(cs[i].text.clone())
        } else if str_eq(cs[i].kind.as_str(), "field_expression") {
            match child_text(&cs[i], "field_identifier") {
                Some(t) => Some(t),
                None => call_name_from(cs, i + 1),
            }
        } else {
            call_name_from(cs, i + 1)
        }
    }
}

/// The declared variable name inside an initialized declarator: a direct
/// identifier, or the identifier of an array declarator.
pub open spec fn spec_var_usage_inner(cs: Seq<ParseNode>) -> Option<Seq<char>>
    decreases cs,
{
    if cs.len() == 0 {
        None
    } else if cs[0].kind@ == "identifier"@ {
        Some(cs[0].text@)
    } else if cs[0].kind@ == "array_declarator"@ {
        match spec_child_text(cs[0].children@, "identifier"@) {
            Some(t) => Some(t),
            None => spec_var_usage_inner(cs.drop_first()),
        }
    } else {
        spec_var_usage_inner(cs.drop_first())
    }
}

pub open spec fn spec_var_usage_name(cs: Seq<ParseNode>) -> Seq<char>
    decreases cs,
{
    if cs.len() == 0 {
        Seq::empty()
    } else if cs[0].kind@ == "init_declarator"@ {
        match spec_var_usage_inner(cs[0].children@) {
            Some(t) => t,
            None => spec_var_usage_name(cs.drop_first()),
        }
    } else {
        spec_var_usage_name(cs.drop_first())
    }
}

fn var_usage_inner(cs: &Vec<ParseNode>, i: usize) -> (r: Option<String>)
    requires
        i <= cs.len(),
    ensures
        match r {
            Some(t) => spec_var_usage_inner(cs@.skip(i as int)) == Some(t@),
            None => (spec_var_usage_inner(cs@.skip(i as int)) is None),
        },
    decreases cs.len() - i,
{
    if i == cs.len() {
        proof {
            assert(cs@.skip(i as int) =~= Seq::<ParseNode>::empty());
        }
        None
    } else {
        proof {
            assert(cs@.skip(i as int)[0] == cs@[i as int]);
            assert(cs@.skip(i as int).drop_first() =~= cs@.skip(i + 1));
        }
        if str_eq(cs[i].kind.as_str(), "identifier") {
            Some(cs[i].text.clone())
        } else if str_eq(cs[i].kind.as_str(), "array_declarator") {
            match child_text(&cs[i], "identifier") {
                Some(t) => Some(t),
                None => var_usage_inner(cs, i + 1),
            }
        } else {
            var_usage_inner(cs, i + 1)
        }
    }
}

fn var_usage_name(cs: &Vec<ParseNode>, i: usize) -> (r: String)
    requires
        i <= cs.len(),
    ensures
        r@ == spec_var_usage_name(cs@.skip(i as int)),
    decreases cs.len() - i,
{
    if i == cs.len() {
        proof {
            assert(cs@.skip(i as int) =~= Seq::<ParseNode>::empty());
        }
        String::new()
    } else {
        proof {
            assert(cs@.skip(i as int)[0] == cs@[i as int]);
            assert(cs@.skip(i as int).drop_first() =~= cs@.skip(i + 1));
        }
        if str_eq(cs[i].kind.as_str(), "init_declarator") {
            match var_usage_inner(&cs[i].children, 0) {
                Some(t) => {
                    proof {
                        assert(cs@[i as int].children@.skip(0) =~= cs@[i as int].children@);
                    }
                    t
                },
                None => {
                    proof {
                        assert(cs@[i as int].children@.skip(0) =~= cs@[i as int].children@);
                    }
                    var_usage_name(cs, i + 1)
                },
            }
        } else {
            var_usage_name(cs, i + 1)
        }
    }
}

/// The written type of a variable declaration: the name of a template type,
/// or the text of a primitive type.
pub open spec fn spec_type_names(n: ParseNode) -> Seq<Seq<char>> {
    match spec_child_node(n.children@, "template_type"@) {
        Some(tt) => (match spec_child_text(tt.children@, "type_identifier"@) {
            Some(t) => seq![t],
            None => Seq::empty(),
        }),
        None => (match spec_child_text(n.children@, "primitive_type"@) {
            Some(t) => seq![t],
            None => Seq::empty(),
        }),
    }
}

fn type_names(n: &ParseNode) -> (r: Vec<String>)
    ensures
        views(r@) == spec_type_names(*n),
{
    let mut out: Vec<String> = Vec::new();
    let tt = child_node_from(&n.children, 0, "template_type");
    proof {
        assert(n.children@.skip(0) =~= n.children@);
    }
    match tt {
        Some(t) => {
            match child_text(t, "type_identifier") {
                Some(name) => {
                    out.push(name);
                    proof {
                        assert(views(out@) =~= spec_type_names(*n));
                    }
                },
                None => {
                    proof {
                        assert(views(out@) =~= spec_type_names(*n));
                    }
                },
            }
        },
        None => {
            match child_text(n, "primitive_type") {
                Some(name) => {
                    out.push(name);
                    proof {
                        assert(views(out@) =~= spec_type_names(*n));
                    }
                },
                None => {
                    proof {
                        assert(views(out@) =~= spec_type_names(*n));
                    }
                },
            }
        },
    }
    out
}

/// The symbol path of a usage occurrence: the referenced name, made unique
/// per occurrence by the row and column where it stands.
pub open spec fn spec_usage_path(name: Seq<char>, row: nat, col: nat) -> Seq<char> {
    name + "::"@ + dec_str(row) + "::"@ + dec_str(col)
}

pub open spec fn spec_usage_record(n: ParseNode, name: Seq<char>, ts: Seq<Seq<char>>) -> UsageV {
    UsageV {
        symbol_path: spec_usage_path(name, n.range.start_row as nat, n.range.start_col as nat),
        referenced_name: name,
        range: n.range,
        type_names: ts,
        declaration_symbol_path: None,
    }
}

/// The usage a single node yields, if any: a call expression with a readable
/// callee name, or a variable declaration of a template or primitive type.
pub open spec fn spec_own_usage(n: ParseNode) -> Option<UsageV> {
    if n.kind@ == "call_expression"@ {
        match spec_call_name(n.children@) {
            Some(name) => Some(spec_usage_record(n, name, Seq::empty())),
            None => None,
        }
    } else if n.kind@ == "declaration"@ {
        let name = spec_var_usage_name(n.children@);
        let ts = spec_type_names(n);
        if name.len() > 0 && ts.len() > 0 {
            Some(spec_usage_record(n, name, ts))
        } else {
            None
        }
    } else {
        None
    }
}

fn make_usage(n: &ParseNode, name: String, ts: Vec<String>) -> (r: UsageSymbolInfo)
    ensures
        r@ == spec_usage_record(*n, name@, views(ts@)),
{
    let row_s = usize_to_string(n.range.start_row);
    let col_s = usize_to_string(n.range.start_col);
    let mut path = name.clone();
    path.append("::");
    path.append(row_s.as_str());
    path.append("::");
    path.append(col_s.as_str());
    UsageSymbolInfo {
        symbol_path: path,
        referenced_name: name,
        range: n.range,
        type_names: ts,
        declaration_symbol_path: None,
    }
}

fn own_usage(n: &ParseNode) -> (r: Option<UsageSymbolInfo>)
    ensures
        match r {
            Some(u) => spec_own_usage(*n) == Some(u@),
            None => (spec_own_usage(*n) is None),
        },
{
    if str_eq(n.kind.as_str(), "call_expression") {
        let nm = call_name_from(&n.children, 0);
        proof {
            assert(n.children@.skip(0) =~= n.children@);
        }
        match nm {
            Some(name) => {
                let empty_ts: Vec<String> = Vec::new();
                proof {
                    assert(views(empty_ts@) =~= Seq::<Seq<char>>::empty());
                }
                Some(make_usage(n, name, empty_ts))
            },
            None => None,
        }
    } else if str_eq(n.kind.as_str(), "declaration") {
        let name = var_usage_name(&n.children, 0);
        proof {
            assert(n.children@.skip(0) =~= n.children@);
        }
        let ts = type_names(n);
        if name.as_str().unicode_len() > 0 && ts.len() > 0 {
            proof {
                assert(views(ts@).len() == ts@.len());
            }
            Some(make_usage(n, name, ts))
        } else {
            proof {
                assert(views(ts@).len() == ts@.len());
            }
            None
        }
    } else {
        None
    }
}

/// All usages found at or below a node, in walk order.
pub open spec fn spec_node_usages(n: ParseNode) -> Seq<UsageV>
    decreases n,
{
    let own = match spec_own_usage(n) {
        Some(u) => seq![u],
        None => Seq::empty(),
    };
    own + spec_children_usages(n.children@)
}

pub open spec fn spec_children_usages(cs: Seq<ParseNode>) -> Seq<UsageV>
    decreases cs,
{
    if cs.len() == 0 {
        Seq::empty()
    } else {
        spec_children_usages(cs.drop_last()) + spec_node_usages(cs.last())
    }
}

/// Every usage of a parsed file, in walk order.
pub open spec fn spec_usages(root: ParseNode) -> Seq<UsageV> {
    spec_node_usages(root)
}

fn walk_usages(n: &ParseNode, out: &mut Vec<UsageSymbolInfo>)
    ensures
        usage_views(final(out)@) == usage_views(old(out)@) + spec_node_usages(*n),
    decreases *n,
{
    match own_usage(n) {
        Some(u) => {
            let ghost prev = usage_views(out@);
            let ghost uv = u@;
            out.push(u);
            proof {
                assert(usage_views(out@) =~= prev.push(uv));
                assert(usage_views(old(out)@) + seq![uv] =~= prev.push(uv));
            }
        },
        None => {
            proof {
                assert(usage_views(out@) + Seq::<UsageV>::empty() =~= usage_views(out@));
            }
        },
    }
    let ghost after_own = usage_views(out@);
    let mut i: usize = 0;
    proof {
        assert(n.children@.take(0) =~= Seq::<ParseNode>::empty());
        assert(after_own + spec_children_usages(n.children@.take(0)) =~= after_own);
    }
    while i < n.children.len()
        invariant
            i <= n.children.len(),
            usage_views(out@) == after_own + spec_children_usages(n.children@.take(i as int)),
        decreases n.children.len() - i,
    {
        walk_usages(&n.children[i], out);
        proof {
            assert(n.children@.take(i + 1).drop_last() =~= n.children@.take(i as int));
            assert(n.children@.take(i + 1).last() == n.children@[i as int]);
        }
        i = i + 1;
    }
    proof {
        assert(n.children@.take(n.children@.len() as int) =~= n.children@);
    }
}

impl CppParser {
    /// Parses the text and collects every usage occurrence, unlinked: each
    /// record's declaration path is still unset.
    pub fn parse_usages(&mut self, text: &str) -> (r: Result<Vec<UsageSymbolInfo>, AstError>)
        ensures
            match r {
                Ok(us) => (cpp_parse(text@) matches Some(root) && usage_views(us@) == spec_usages(
                    root,
                )),
                Err(e) => e == AstError::ParseError && cpp_parse(text@) is None,
            },
    {
        match self.parse_tree(text) {
            None => Err(AstError::ParseError),
            Some(root) => {
                let mut out: Vec<UsageSymbolInfo> = Vec::new();
                proof {
                    assert(usage_views(out@) =~= Seq::<UsageV>::empty());
                }
                walk_usages(&root, &mut out);
                proof {
                    assert(Seq::<UsageV>::empty() + spec_usages(root) =~= spec_usages(root));
                }
                Ok(out)
            },
        }
    }
}

} // verus!
