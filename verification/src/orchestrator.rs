//! The orchestrator: validates the members of one annotated definition,
//! supplies the defaults for omitted optional declarations, and assembles
//! the final output from the parser, the dependency map, the construction
//! generator and the update synthesizer. Every failure aborts the whole
//! invocation; no partial output is ever produced.

use vstd::prelude::*;
use vstd::string::StringExecFns;
use crate::tokens::{Token, TokenV};
use crate::ast::WidgetNode;
use crate::errors::CompileError;
use crate::parser::{parse, spec_parse};
use crate::depmap::{DepMap, get_properties_model_map, build_node, name_of};
use crate::synth::{Stmt, StmtV, get_update, spec_synth};
use crate::gen::{
    Instr, InstrV, GenContext, assign_names, spec_assign_names, gen, spec_gen, clone_strings,
    lemma_assign_names_named,
};

verus! {

/// One member of the annotated definition handed to the compiler.
#[derive(Debug, PartialEq, Eq)]
pub enum Item {
    /// The view declaration: the widget-description token tree.
    View { tokens: Vec<Token> },
    /// The model constructor, with its declared return type.
    Model { ret: Vec<String>, body: Vec<Token> },
    /// The state-transition routine.
    Update { stmts: Vec<Stmt> },
    /// A user-written container accessor.
    Container { body: Vec<Token> },
    /// An explicit Model type declaration.
    ModelType { typ: Vec<String> },
    /// An explicit Container type declaration.
    ContainerType { typ: Vec<String> },
    /// A named auxiliary member; only the recognized ones pass through.
    Auxiliary { name: String, body: Vec<Token> },
}

/// The view of an `Item`.
#[verifier::ext_equal]
pub enum ItemV {
    View { tokens: Seq<TokenV> },
    Model { ret: Seq<Seq<char>>, body: Seq<TokenV> },
    Update { stmts: Seq<StmtV> },
    Container { body: Seq<TokenV> },
    ModelType { typ: Seq<Seq<char>> },
    ContainerType { typ: Seq<Seq<char>> },
    Auxiliary { name: Seq<char>, body: Seq<TokenV> },
}

impl DeepView for Item {
    type V = ItemV;

    open spec fn deep_view(&self) -> ItemV {
        match self {
            Item::View { tokens } => ItemV::View { tokens: tokens.deep_view() },
            Item::Model { ret, body } => ItemV::Model {
                ret: ret.deep_view(),
                body: body.deep_view(),
            },
            Item::Update { stmts } => ItemV::Update { stmts: stmts.deep_view() },
            Item::Container { body } => ItemV::Container { body: body.deep_view() },
            Item::ModelType { typ } => ItemV::ModelType { typ: typ.deep_view() },
            Item::ContainerType { typ } => ItemV::ContainerType { typ: typ.deep_view() },
            Item::Auxiliary { name, body } => ItemV::Auxiliary {
                name: name@,
                body: body.deep_view(),
            },
        }
    }
}

/// The container accessor of the assembled output: the user's own, or a
/// synthesized one returning a reference to the root instance.
#[derive(Debug, PartialEq, Eq)]
pub enum Accessor {
    UserDefined { body: Vec<Token> },
    RootRef { root: String },
}

/// The view of an `Accessor`.
#[verifier::ext_equal]
pub enum AccessorV {
    UserDefined { body: Seq<TokenV> },
    RootRef { root: Seq<char> },
}

impl DeepView for Accessor {
    type V = AccessorV;

    open spec fn deep_view(&self) -> AccessorV {
        match self {
            Accessor::UserDefined { body } => AccessorV::UserDefined { body: body.deep_view() },
            Accessor::RootRef { root } => AccessorV::RootRef { root: root@ },
        }
    }
}

/// The assembled output of one invocation: the resolved Model and
/// Container types, the ordered construction procedure with its root
/// handle, the rewritten transition routine, the container accessor, and
/// the unmodified passthrough members.
#[derive(Debug, PartialEq, Eq)]
pub struct Output {
    pub model_type: Vec<String>,
    pub container_type: Vec<String>,
    pub construction: Vec<Instr>,
    pub root: String,
    pub update: Vec<Stmt>,
    pub container_accessor: Accessor,
    pub passthrough: Vec<Item>,
}

/// The view of an `Output`.
#[verifier::ext_equal]
pub struct OutputV {
    pub model_type: Seq<Seq<char>>,
    pub container_type: Seq<Seq<char>>,
    pub construction: Seq<InstrV>,
    pub root: Seq<char>,
    pub update: Seq<StmtV>,
    pub container_accessor: AccessorV,
    pub passthrough: Seq<ItemV>,
}

impl DeepView for Output {
    type V = OutputV;

    open spec fn deep_view(&self) -> OutputV {
        OutputV {
            model_type: self.model_type.deep_view(),
            container_type: self.container_type.deep_view(),
            construction: self.construction.deep_view(),
            root: self.root@,
            update: self.update.deep_view(),
            container_accessor: self.container_accessor.deep_view(),
            passthrough: self.passthrough.deep_view(),
        }
    }
}

/// What the validation scan has gathered so far.
#[verifier::ext_equal]
pub struct ScanV {
    pub view: Option<Seq<TokenV>>,
    pub update: Option<Seq<StmtV>>,
    pub model_ret: Option<Seq<Seq<char>>>,
    pub container: Option<Seq<TokenV>>,
    pub model_type: Option<Seq<Seq<char>>>,
    pub container_type: Option<Seq<Seq<char>>>,
    pub passthrough: Seq<ItemV>,
}

/// The scan state before any member was read.
pub open spec fn empty_scan() -> ScanV {
    ScanV {
        view: None,
        update: None,
        model_ret: None,
        container: None,
        model_type: None,
        container_type: None,
        passthrough: Seq::empty(),
    }
}

/// Classifies one member. A second view declaration or a second
/// transition routine is a `CodegenPrecondition` failure; an unrecognized
/// auxiliary member is an `UnsupportedConstruct` failure; later optional
/// declarations override earlier ones; the model constructor and the
/// recognized auxiliary members pass through unmodified.
pub open spec fn step_scan(st: ScanV, it: ItemV) -> Result<ScanV, CompileError> {
    match it {
        ItemV::View { tokens } => if st.view is Some {
            Err(CompileError::CodegenPrecondition)
        } else {
            Ok(ScanV { view: Some(tokens), ..st })
        },
        ItemV::Update { stmts } => if st.update is Some {
            Err(CompileError::CodegenPrecondition)
        } else {
            Ok(ScanV { update: Some(stmts), ..st })
        },
        ItemV::Model { ret, body } => Ok(
            ScanV { model_ret: Some(ret), passthrough: st.passthrough.push(it), ..st },
        ),
        ItemV::Container { body } => Ok(ScanV { container: Some(body), ..st }),
        ItemV::ModelType { typ } => Ok(ScanV { model_type: Some(typ), ..st }),
        ItemV::ContainerType { typ } => Ok(ScanV { container_type: Some(typ), ..st }),
        ItemV::Auxiliary { name, body } => if name == "subscriptions"@ || name
            == "update_command"@ {
            Ok(ScanV { passthrough: st.passthrough.push(it), ..st })
        } else {
            Err(CompileError::UnsupportedConstruct)
        },
    }
}

/// Scans the members left to right.
pub open spec fn scan_items(items: Seq<ItemV>, st: ScanV) -> Result<ScanV, CompileError>
    decreases items.len(),
{
    if items.len() == 0 {
        Ok(st)
    } else {
        match step_scan(st, items[0]) {
            Err(e) => Err(e),
            Ok(st2) => scan_items(items.skip(1), st2),
        }
    }
}

/// The whole compilation of one annotated definition: validate the
/// members, parse the view declaration, name the tree, build the
/// dependency map, generate the construction procedure, synthesize the
/// update routine, resolve the defaults, and assemble the output — or
/// fail, producing nothing.
pub open spec fn spec_widget(items: Seq<ItemV>) -> Result<OutputV, CompileError> {
    match scan_items(items, empty_scan()) {
        Err(e) => Err(e),
        Ok(st) => {
            if st.view is None || st.update is None {
                Err(CompileError::CodegenPrecondition)
            } else {
                match spec_parse(st.view->Some_0) {
                    None => Err(CompileError::ParseError),
                    Some(tree) => {
                        let named = spec_assign_names(tree, 0).0;
                        match build_node(named, Seq::empty()) {
                            None => Err(CompileError::ExpressionAnalysisError),
                            Some(m) => {
                                if st.model_type is None && st.model_ret is None {
                                    Err(CompileError::CodegenPrecondition)
                                } else {
                                    Ok(
                                        OutputV {
                                            model_type: if st.model_type is Some {
                                                st.model_type->Some_0
                                            } else {
                                                st.model_ret->Some_0
                                            },
                                            container_type: if st.container_type is Some {
                                                st.container_type->Some_0
                                            } else {
                                                named.typ
                                            },
                                            construction: spec_gen(named),
                                            root: name_of(named),
                                            update: spec_synth(st.update->Some_0, m),
                                            container_accessor: if st.container is Some {
                                                AccessorV::UserDefined { body: st.container->Some_0 }
                                            } else {
                                                AccessorV::RootRef { root: name_of(named) }
                                            },
                                            passthrough: st.passthrough,
                                        },
                                    )
                                }
                            },
                        }
                    },
                }
            }
        },
    }
}

/// The gathered members, executable side.
struct Scan {
    view: Option<Vec<Token>>,
    update: Option<Vec<Stmt>>,
    model_ret: Option<Vec<String>>,
    container: Option<Vec<Token>>,
    model_type: Option<Vec<String>>,
    container_type: Option<Vec<String>>,
    passthrough: Vec<Item>,
}

impl Scan {
    spec fn dview(&self) -> ScanV {
        ScanV {
            view: self.view.deep_view(),
            update: self.update.deep_view(),
            model_ret: self.model_ret.deep_view(),
            container: self.container.deep_view(),
            model_type: self.model_type.deep_view(),
            container_type: self.container_type.deep_view(),
            passthrough: self.passthrough.deep_view(),
        }
    }
}

/// Compiles one annotated definition into the assembled output, or fails
/// with the error the definition earns: `CodegenPrecondition` for a
/// missing or duplicated required declaration or an unresolvable default,
/// `UnsupportedConstruct` for an unrecognized member, `ParseError` for a
/// malformed view declaration, and `ExpressionAnalysisError` for a
/// property expression that does not parse.
#[verifier::loop_isolation(false)]
#[verifier::rlimit(50)]
pub fn widget(items: Vec<Item>) -> (r: Result<Output, CompileError>)
    ensures
        match r {
            Ok(o) => spec_widget(items.deep_view()) == Ok::<OutputV, CompileError>(o.deep_view()),
            Err(e) => spec_widget(items.deep_view()) == Err::<OutputV, CompileError>(e),
        },
{
    let ghost iv = items.deep_view();
    let mut rest = items;
    let mut st = Scan {
        view: None,
        update: None,
        model_ret: None,
        container: None,
        model_type: None,
        container_type: None,
        passthrough: Vec::new(),
    };
    proof {
        assert(st.dview().passthrough =~= Seq::<ItemV>::empty());
        assert(st.dview() == empty_scan());
    }
    while rest.len() > 0
        invariant
            scan_items(rest.deep_view(), st.dview()) == scan_items(iv, empty_scan()),
        decreases rest.len(),
    {
        let ghost rv = rest.deep_view();
        let ghost st0 = st.dview();
        let it = rest.remove(0);
        proof {
            assert(rest.deep_view() =~= rv.skip(1));
            assert(it.deep_view() == rv[0]);
        }
        match it {
            Item::View { tokens } => {
                if st.view.is_some() {
                    return Err(CompileError::CodegenPrecondition);
                }
                st.view = Some(tokens);
            },
            Item::Update { stmts } => {
                if st.update.is_some() {
                    return Err(CompileError::CodegenPrecondition);
                }
                st.update = Some(stmts);
            },
            Item::Model { ret, body } => {
                st.model_ret = Some(clone_strings(&ret));
                st.passthrough.push(Item::Model { ret, body });
                proof {
                    assert(st.dview().passthrough =~= st0.passthrough.push(rv[0]));
                }
            },
            Item::Container { body } => {
                st.container = Some(body);
            },
            Item::ModelType { typ } => {
                st.model_type = Some(typ);
            },
            Item::ContainerType { typ } => {
                st.container_type = Some(typ);
            },
            Item::Auxiliary { name, body } => {
                let subs = String::from_str("subscriptions");
                let upcmd = String::from_str("update_command");
                if !(name.eq(&subs) || name.eq(&upcmd)) {
                    return Err(CompileError::UnsupportedConstruct);
                }
                st.passthrough.push(Item::Auxiliary { name, body });
                proof {
                    assert(st.dview().passthrough =~= st0.passthrough.push(rv[0]));
                }
            },
        }
        proof {
            assert(Ok::<ScanV, CompileError>(st.dview()) == step_scan(st0, rv[0]));
        }
    }
    proof {
        assert(scan_items(rest.deep_view(), st.dview()) == Ok::<ScanV, CompileError>(st.dview()));
    }
    let view_tokens: Vec<Token> = match st.view {
        Some(v) => v,
        None => {
            return Err(CompileError::CodegenPrecondition);
        },
    };
    let update_stmts: Vec<Stmt> = match st.update {
        Some(u) => u,
        None => {
            return Err(CompileError::CodegenPrecondition);
        },
    };
    let tree = match parse(&view_tokens) {
        Ok(t) => t,
        Err(e) => {
            return Err(e);
        },
    };
    let mut ctx = GenContext { counter: 0 };
    let named = assign_names(tree, &mut ctx);
    proof {
        lemma_assign_names_named(tree.dview(), 0);
    }
    let mut map = DepMap::new();
    match get_properties_model_map(&named, &mut map) {
        Ok(()) => {},
        Err(e) => {
            return Err(e);
        },
    }
    if st.model_type.is_none() && st.model_ret.is_none() {
        return Err(CompileError::CodegenPrecondition);
    }
    let model_type: Vec<String> = match st.model_type {
        Some(t) => t,
        None => match st.model_ret {
            Some(rt) => rt,
            None => {
                proof {
                    assert(false);
                }
                return Err(CompileError::CodegenPrecondition);
            },
        },
    };
    let container_type: Vec<String> = match st.container_type {
        Some(t) => t,
        None => clone_strings(&named.typ),
    };
    let (construction, root) = gen(&named);
    let update = get_update(update_stmts, &map);
    let container_accessor: Accessor = match st.container {
        Some(b) => Accessor::UserDefined { body: b },
        None => Accessor::RootRef { root: root.clone() },
    };
    let out = Output {
        model_type,
        container_type,
        construction,
        root,
        update,
        container_accessor,
        passthrough: st.passthrough,
    };
    Ok(out)
}

} // verus!
