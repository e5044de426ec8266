//! The source-pattern scanner: recognising window-system usage patterns in
//! a parsed source file.
//!
//! The scanner works on a plain model of the syntax it inspects: an
//! expression is either a single identifier, a method call on a receiver,
//! or something else; a statement is a `let` binding, a bare expression,
//! or something else; a function carries its generics, `where` predicates
//! and inputs, already reduced to the identifiers and flags the rules
//! read.  The rules themselves - what counts as a method chain, which
//! bindings define, redefine or use a widget, and which functions drive a
//! window system - are specified exactly and verified here.

use vstd::prelude::*;
use vstd::string::StrSliceExecFns;

verus! {

/// A line and column in the scanned source.
#[derive(Clone, Copy, Debug, PartialEq, Eq, Structural)]
pub struct Position {
    pub line: usize,
    pub column: usize,
}

/// A region of the scanned source.
#[derive(Clone, Copy, Debug, PartialEq, Eq, Structural)]
pub struct Span {
    pub start: Position,
    pub end: Position,
}

/// One argument of a recognised method call: where it stands and its
/// source text.
#[derive(Debug)]
pub struct Arg {
    pub span: Span,
    pub value: String,
}

/// One recognised method call: from its dot to its closing parenthesis.
#[derive(Debug)]
pub struct Method {
    pub span: Span,
    pub name: String,
    pub args: Vec<Arg>,
}

/// `let x = parent.create().a().b();` - a widget defined from a parent.
#[derive(Debug)]
pub struct Definition {
    pub span: Span,
    pub name: String,
    pub parent: String,
    pub create: Method,
    pub methods: Vec<Method>,
}

/// `let x = x.a().b();` - a widget rebound through more calls.
#[derive(Debug)]
pub struct Redefinition {
    pub span: Span,
    pub name: String,
    pub methods: Vec<Method>,
}

/// `x.a().b();` - a widget used without rebinding.
#[derive(Debug)]
pub struct Use {
    pub span: Span,
    pub name: String,
    pub methods: Vec<Method>,
}

/// One recognised statement pattern.
#[derive(Debug)]
pub enum Item {
    Definition(Definition),
    Redefinition(Redefinition),
    Use(Use),
}

/// One recognised window-system function with its items in source order.
#[derive(Debug)]
pub struct Function {
    pub name: String,
    pub span: Span,
    pub items: Vec<Item>,
}

/// How a chain method participates in the pattern.
#[derive(Clone, Copy, Debug, PartialEq, Eq, Structural)]
pub enum MethodType {
    /// Creates a widget: the name begins `new_`.
    Create,
    /// Sets an attribute: any other name.
    Attr,
    /// Registers an event handler: the name begins `on_`.
    Event,
}

/// Whether a name begins with `new_`.
pub open spec fn spec_is_create_name(s: Seq<char>) -> bool {
    s.len() >= 4 && s[0] == 'n' && s[1] == 'e' && s[2] == 'w' && s[3] == '_'
}

/// Whether a name begins with `on_`.
pub open spec fn spec_is_event_name(s: Seq<char>) -> bool {
    s.len() >= 3 && s[0] == 'o' && s[1] == 'n' && s[2] == '_'
}

/// The method type a name denotes.
pub open spec fn spec_method_type(s: Seq<char>) -> MethodType {
    if spec_is_create_name(s) {
        MethodType::Create
    } else if spec_is_event_name(s) {
        MethodType::Event
    } else {
        MethodType::Attr
    }
}

impl MethodType {
    /// Classify a method name: `new_` prefixes create, `on_` prefixes
    /// register events, everything else sets attributes.
    pub fn from_ident(ident: &str) -> (r: MethodType)
        ensures
            r == spec_method_type(ident@),
    {
        let n = ident.unicode_len();
        if n >= 4 && ident.get_char(0) == 'n' && ident.get_char(1) == 'e' && ident.get_char(2)
            == 'w' && ident.get_char(3) == '_' {
            MethodType::Create
        } else if n >= 3 && ident.get_char(0) == 'o' && ident.get_char(1) == 'n' && ident.get_char(
            2,
        ) == '_' {
            MethodType::Event
        } else {
            MethodType::Attr
        }
    }
}

/// The model of one scanned expression.
#[derive(Debug)]
pub enum MExpr {
    /// A path consisting of one plain identifier.
    Ident { name: String },
    /// A method call, with the spans the scanner reports and whether the
    /// call carries attributes or a turbofish, which stops the chain.
    MethodCall {
        receiver: Box<MExpr>,
        dot: Position,
        name: String,
        blocked: bool,
        paren_end: Position,
        args: Vec<Arg>,
    },
    /// Any other expression form.
    Opaque,
}

/// The model of one scanned statement.
#[derive(Debug)]
pub enum MStmt {
    /// `let <ident> = <init>;` - `ident` is present only for a plain,
    /// attribute-free, subpattern-free identifier pattern, and `init`
    /// only for a non-diverging initialiser.
    Local { span: Span, ident: Option<String>, init: Option<MExpr> },
    /// A bare expression statement.
    Expr { span: Span, expr: MExpr },
    /// Any other statement form.
    Opaque,
}

/// One generic parameter of a scanned function: its identifier and
/// whether one of its bounds names the window-system trait.
#[derive(Debug)]
pub struct MGeneric {
    pub ident: String,
    pub has_ws_bound: bool,
}

/// One `where` predicate: the bounded type's identifier, when the type is
/// a plain identifier, and whether a bound names the window-system trait.
#[derive(Debug)]
pub struct MWherePred {
    pub ident: Option<String>,
    pub has_ws_bound: bool,
}

/// One function input: its binding name, when the pattern is a plain
/// identifier, and its type's identifier, when the type - references
/// stripped - is a plain identifier.
#[derive(Debug)]
pub struct MInput {
    pub pat_ident: Option<String>,
    pub ty_ident: Option<String>,
}

/// The model of one scanned function.
#[derive(Debug)]
pub struct MFn {
    pub name: String,
    pub sig_start: Position,
    pub block_end: Position,
    pub generics: Vec<MGeneric>,
    pub where_preds: Vec<MWherePred>,
    pub inputs: Vec<MInput>,
    pub stmts: Vec<MStmt>,
}

/// The method chain an expression spells, outermost call last: the base
/// identifier and the calls hung on it.  A call that carries attributes
/// or a turbofish, or a base that is not a plain identifier, yields no
/// chain.
pub open spec fn spec_chain(e: MExpr) -> Option<(String, Seq<Method>)>
    decreases e,
{
    match e {
        MExpr::Ident { name } => Some((name, Seq::<Method>::empty())),
        MExpr::MethodCall { receiver, dot, name, blocked, paren_end, args } => if blocked {
            None
        } else {
            match spec_chain(*receiver) {
                Some((base, ms)) => Some(
                    (
                        base,
                        ms.push(
                            Method { span: Span { start: dot, end: paren_end }, name, args },
                        ),
                    ),
                ),
                None => None,
            }
        },
        MExpr::Opaque => None,
    }
}

/// Walk an expression down to its base identifier, collecting the method
/// chain hung on it.
pub fn method_chain(e: MExpr) -> (r: Option<(String, Vec<Method>)>)
    ensures
        match r {
            Some(p) => spec_chain(e) == Some((p.0, p.1@)),
            None => spec_chain(e) is None,
        },
    decreases e,
{
    match e {
        MExpr::Ident { name } => Some((name, Vec::new())),
        MExpr::MethodCall { receiver, dot, name, blocked, paren_end, args } => {
            if blocked {
                None
            } else {
                match method_chain(*receiver) {
                    Some((base, mut ms)) => {
                        ms.push(Method { span: Span { start: dot, end: paren_end }, name, args });
                        Some((base, ms))
                    },
                    None => None,
                }
            }
        },
        MExpr::Opaque => None,
    }
}

/// The mathematical shape of one recognised item, with sequences in place
/// of vectors; the form contracts about `Item` values speak in.
pub enum ItemView {
    Definition { span: Span, name: Seq<char>, parent: Seq<char>, create: Method, methods: Seq<Method> },
    Redefinition { span: Span, name: Seq<char>, methods: Seq<Method> },
    Use { span: Span, name: Seq<char>, methods: Seq<Method> },
}

/// The shape of a built item.
pub open spec fn item_view(it: Item) -> ItemView {
    match it {
        Item::Definition(d) => ItemView::Definition {
            span: d.span,
            name: d.name@,
            parent: d.parent@,
            create: d.create,
            methods: d.methods@,
        },
        Item::Redefinition(d) => ItemView::Redefinition {
            span: d.span,
            name: d.name@,
            methods: d.methods@,
        },
        Item::Use(d) => ItemView::Use { span: d.span, name: d.name@, methods: d.methods@ },
    }
}

/// The item a statement spells, if any.  A binding whose chain starts on
/// another identifier with a creating call defines a widget; a binding
/// whose chain starts on its own identifier with a non-creating call
/// redefines it; a bare non-empty chain uses one.
pub open spec fn spec_item(stmt: MStmt) -> Option<ItemView> {
    match stmt {
        MStmt::Local { span, ident, init } => match (ident, init) {
            (Some(name), Some(e)) => match spec_chain(e) {
                Some((base, ms)) => if ms.len() == 0 {
                    None
                } else if base@ != name@ && spec_method_type(ms[0].name@) == MethodType::Create {
                    Some(
                        ItemView::Definition {
                            span,
                            name: name@,
                            parent: base@,
                            create: ms[0],
                            methods: ms.drop_first(),
                        },
                    )
                } else if base@ == name@ && spec_method_type(ms[0].name@) != MethodType::Create {
                    Some(ItemView::Redefinition { span, name: name@, methods: ms })
                } else {
                    None
                },
                None => None,
            },
            _ => None,
        },
        MStmt::Expr { span, expr } => match spec_chain(expr) {
            Some((base, ms)) => if ms.len() == 0 {
                None
            } else {
                Some(ItemView::Use { span, name: base@, methods: ms })
            },
            None => None,
        },
        MStmt::Opaque => None,
    }
}

/// The items of a statement sequence, in source order.
pub open spec fn spec_items(stmts: Seq<MStmt>) -> Seq<ItemView>
    decreases stmts.len(),
{
    if stmts.len() == 0 {
        Seq::<ItemView>::empty()
    } else {
        let rest = spec_items(stmts.drop_last());
        match spec_item(stmts.last()) {
            Some(it) => rest.push(it),
            None => rest,
        }
    }
}

/// Classify one statement.
pub fn item_from_stmt(stmt: MStmt) -> (r: Option<Item>)
    ensures
        match r {
            Some(it) => spec_item(stmt) == Some(item_view(it)),
            None => spec_item(stmt) is None,
        },
{
    match stmt {
        MStmt::Local { span, ident, init } => {
            let (name, e) = match (ident, init) {
                (Some(name), Some(e)) => (name, e),
                _ => {
                    return None;
                },
            };
            let (base, mut ms) = match method_chain(e) {
                Some(p) => p,
                None => {
                    return None;
                },
            };
            if ms.len() == 0 {
                return None;
            }
            let first_ty = MethodType::from_ident(ms[0].name.as_str());
            let base_is_name = base == name;
            if !base_is_name && matches!(first_ty, MethodType::Create) {
                let create = ms.remove(0);
                Some(Item::Definition(Definition { span, name, parent: base, create, methods: ms }))
            } else if base_is_name && !matches!(first_ty, MethodType::Create) {
                Some(Item::Redefinition(Redefinition { span, name, methods: ms }))
            } else {
                None
            }
        },
        MStmt::Expr { span, expr } => {
            match method_chain(expr) {
                Some((base, ms)) => {
                    if ms.len() == 0 {
                        None
                    } else {
                        Some(Item::Use(Use { span, name: base, methods: ms }))
                    }
                },
                None => None,
            }
        },
        MStmt::Opaque => None,
    }
}

/// The identifier of the first generic parameter carrying the
/// window-system bound.
pub open spec fn spec_first_ws_generic(gs: Seq<MGeneric>) -> Option<Seq<char>>
    decreases gs.len(),
{
    if gs.len() == 0 {
        None
    } else if gs[0].has_ws_bound {
        Some(gs[0].ident@)
    } else {
        spec_first_ws_generic(gs.drop_first())
    }
}

/// The identifier bound by the first window-system `where` predicate
/// whose type is a plain identifier.
pub open spec fn spec_first_ws_where(ps: Seq<MWherePred>) -> Option<Seq<char>>
    decreases ps.len(),
{
    if ps.len() == 0 {
        None
    } else if ps[0].has_ws_bound && ps[0].ident is Some {
        Some(ps[0].ident->0@)
    } else {
        spec_first_ws_where(ps.drop_first())
    }
}

/// The window-system type a function drives: the first bounded generic,
/// then the first bounded `where` type.
pub open spec fn spec_ws_type_of(f: MFn) -> Option<Seq<char>> {
    match spec_first_ws_generic(f.generics@) {
        Some(g) => Some(g),
        None => spec_first_ws_where(f.where_preds@),
    }
}

/// Whether some input binds a value of the given type by a plain
/// identifier, references stripped.
pub open spec fn spec_has_ws_arg(inputs: Seq<MInput>, ws: Seq<char>) -> bool {
    exists|k: int|
        0 <= k < inputs.len() && (#[trigger] inputs[k]).ty_ident is Some && inputs[k].ty_ident->0@
            == ws && inputs[k].pat_ident is Some
}

/// Whether the scanner recognises the function: it names a window-system
/// type and takes an argument of it.
pub open spec fn spec_is_ws_fn(f: MFn) -> bool {
    match spec_ws_type_of(f) {
        Some(ws) => spec_has_ws_arg(f.inputs@, ws),
        None => false,
    }
}

/// The identifier of the first generic parameter bound by the
/// window-system trait, then of the first `where` predicate so bound;
/// the function drives a window system only if one exists.
pub fn get_ws_type(f: &MFn) -> (r: Option<String>)
    ensures
        match r {
            Some(g) => spec_ws_type_of(*f) == Some(g@),
            None => spec_ws_type_of(*f) is None,
        },
{
    proof {
        assert(f.generics@.skip(0) =~= f.generics@);
    }
    let mut k: usize = 0;
    while k < f.generics.len()
        invariant
            k <= f.generics@.len(),
            spec_first_ws_generic(f.generics@) == spec_first_ws_generic(
                f.generics@.skip(k as int),
            ),
        decreases f.generics@.len() - k,
    {
        proof {
            assert(f.generics@.skip(k as int)[0] == f.generics@[k as int]);
            assert(f.generics@.skip(k as int).drop_first() =~= f.generics@.skip(k + 1));
        }
        if f.generics[k].has_ws_bound {
            return Some(String::from_str(f.generics[k].ident.as_str()));
        }
        k = k + 1;
    }
    proof {
        assert(f.generics@.skip(f.generics@.len() as int) =~= Seq::<MGeneric>::empty());
    }
    proof {
        assert(f.where_preds@.skip(0) =~= f.where_preds@);
    }
    let mut k: usize = 0;
    while k < f.where_preds.len()
        invariant
            k <= f.where_preds@.len(),
            spec_first_ws_generic(f.generics@) is None,
            spec_first_ws_where(f.where_preds@) == spec_first_ws_where(
                f.where_preds@.skip(k as int),
            ),
        decreases f.where_preds@.len() - k,
    {
        proof {
            assert(f.where_preds@.skip(k as int)[0] == f.where_preds@[k as int]);
            assert(f.where_preds@.skip(k as int).drop_first() =~= f.where_preds@.skip(k + 1));
        }
        if f.where_preds[k].has_ws_bound {
            if let Some(id) = &f.where_preds[k].ident {
                return Some(String::from_str(id.as_str()));
            }
        }
        k = k + 1;
    }
    proof {
        assert(f.where_preds@.skip(f.where_preds@.len() as int) =~= Seq::<MWherePred>::empty());
    }
    None
}

/// The binding name of the first input whose type - references stripped -
/// is the window-system type itself.
pub fn get_ws_arg(f: &MFn, ws: &String) -> (r: Option<String>)
    ensures
        match r {
            Some(g) => exists|k: int|
                0 <= k < f.inputs@.len() && (#[trigger] f.inputs@[k]).ty_ident is Some
                    && f.inputs@[k].ty_ident->0@ == ws@ && f.inputs@[k].pat_ident is Some && g@
                    == f.inputs@[k].pat_ident->0@ && (forall|j: int|
                    0 <= j < k ==> !((#[trigger] f.inputs@[j]).ty_ident is Some
                        && f.inputs@[j].ty_ident->0@ == ws@ && f.inputs@[j].pat_ident is Some)),
            None => forall|k: int|
                0 <= k < f.inputs@.len() ==> !((#[trigger] f.inputs@[k]).ty_ident is Some
                    && f.inputs@[k].ty_ident->0@ == ws@ && f.inputs@[k].pat_ident is Some),
        },
{
    let mut k: usize = 0;
    while k < f.inputs.len()
        invariant
            k <= f.inputs@.len(),
            forall|j: int|
                0 <= j < k ==> !((#[trigger] f.inputs@[j]).ty_ident is Some
                    && f.inputs@[j].ty_ident->0@ == ws@ && f.inputs@[j].pat_ident is Some),
        decreases f.inputs@.len() - k,
    {
        if let Some(ty) = &f.inputs[k].ty_ident {
            if String::eq(ty, ws) {
                if let Some(pat) = &f.inputs[k].pat_ident {
                    return Some(String::from_str(pat.as_str()));
                }
            }
        }
        k = k + 1;
    }
    None
}

/// Recognise one scanned function and extract its items, in source order.
/// Yields nothing when the function does not drive a window system.
pub fn ws_function(f: MFn) -> (r: Option<Function>)
    ensures
        match r {
            Some(g) => {
                &&& spec_is_ws_fn(f)
                &&& g.name@ == f.name@
                &&& g.span == (Span { start: f.sig_start, end: f.block_end })
                &&& g.items@.map(|i: int, it: Item| item_view(it)) == spec_items(f.stmts@)
            },
            None => !spec_is_ws_fn(f),
        },
{
    let ws = match get_ws_type(&f) {
        Some(ws) => ws,
        None => {
            return None;
        },
    };
    if get_ws_arg(&f, &ws).is_none() {
        return None;
    }
    let MFn { name, sig_start, block_end, generics: _, where_preds: _, inputs: _, mut stmts } = f;
    let mut rev: Vec<MStmt> = Vec::new();
    let ghost stmts0 = stmts@;
    while stmts.len() > 0
        invariant
            rev@.len() + stmts@.len() == stmts0.len(),
            stmts@ == stmts0.take(stmts@.len() as int),
            forall|j: int|
                0 <= j < rev@.len() ==> #[trigger] rev@[j] == stmts0[stmts0.len() - 1 - j],
        decreases stmts.len(),
    {
        proof {
            assert(stmts@.last() == stmts0[stmts@.len() - 1]);
            assert(stmts@.drop_last() =~= stmts0.take((stmts@.len() - 1) as int));
        }
        let s = stmts.pop().unwrap();
        rev.push(s);
    }
    let mut items: Vec<Item> = Vec::new();
    let ghost n = stmts0.len() as int;
    while rev.len() > 0
        invariant
            rev@.len() <= stmts0.len(),
            forall|j: int|
                0 <= j < rev@.len() ==> #[trigger] rev@[j] == stmts0[stmts0.len() - 1 - j],
            items@.map(|i: int, it: Item| item_view(it)) == spec_items(
                stmts0.take(stmts0.len() - rev@.len()),
            ),
        decreases rev.len(),
    {
        let ghost done = stmts0.len() - rev@.len();
        proof {
            assert(rev@.last() == stmts0[done]);
            assert(stmts0.take(done + 1).drop_last() =~= stmts0.take(done));
            assert(stmts0.take(done + 1).last() == stmts0[done]);
        }
        let s = rev.pop().unwrap();
        if let Some(it) = item_from_stmt(s) {
            items.push(it);
        }
    }
    proof {
        assert(stmts0.take(stmts0.len() as int) =~= stmts0);
    }
    Some(Function { name, span: Span { start: sig_start, end: block_end }, items })
}

/// The mathematical shape of one recognised function.
pub open spec fn function_view(g: Function) -> (Seq<char>, Span, Seq<ItemView>) {
    (g.name@, g.span, g.items@.map(|i: int, it: Item| item_view(it)))
}

/// The recognised functions of a file model, in source order: one entry
/// per function the scanner recognises, with its span and items.
pub open spec fn spec_scan(fs: Seq<MFn>) -> Seq<(Seq<char>, Span, Seq<ItemView>)>
    decreases fs.len(),
{
    if fs.len() == 0 {
        Seq::<(Seq<char>, Span, Seq<ItemView>)>::empty()
    } else {
        let rest = spec_scan(fs.drop_last());
        let f = fs.last();
        if spec_is_ws_fn(f) {
            rest.push(
                (
                    f.name@,
                    Span { start: f.sig_start, end: f.block_end },
                    spec_items(f.stmts@),
                ),
            )
        } else {
            rest
        }
    }
}

/// Scan a whole file model: exactly the functions that drive a window
/// system, in source order, each with its span and items.
pub fn get_functions(mut fns: Vec<MFn>) -> (r: Vec<Function>)
    ensures
        r@.map(|i: int, g: Function| function_view(g)) == spec_scan(fns@),
{
    let mut rev: Vec<MFn> = Vec::new();
    let ghost fns0 = fns@;
    while fns.len() > 0
        invariant
            rev@.len() + fns@.len() == fns0.len(),
            fns@ == fns0.take(fns@.len() as int),
            forall|j: int|
                0 <= j < rev@.len() ==> #[trigger] rev@[j] == fns0[fns0.len() - 1 - j],
        decreases fns.len(),
    {
        proof {
            assert(fns@.last() == fns0[fns@.len() - 1]);
            assert(fns@.drop_last() =~= fns0.take((fns@.len() - 1) as int));
        }
        let s = fns.pop().unwrap();
        rev.push(s);
    }
    let mut out: Vec<Function> = Vec::new();
    proof {
        assert(fns0.take(0int) =~= Seq::<MFn>::empty());
        assert(out@.map(|i: int, g: Function| function_view(g)) =~= spec_scan(fns0.take(0int)));
    }
    while rev.len() > 0
        invariant
            rev@.len() <= fns0.len(),
            forall|j: int|
                0 <= j < rev@.len() ==> #[trigger] rev@[j] == fns0[fns0.len() - 1 - j],
            out@.map(|i: int, g: Function| function_view(g)) == spec_scan(
                fns0.take(fns0.len() - rev@.len()),
            ),
        decreases rev.len(),
    {
        let ghost done = fns0.len() - rev@.len();
        let ghost out0 = out@;
        proof {
            assert(rev@.last() == fns0[done]);
            assert(fns0.take(done + 1).drop_last() =~= fns0.take(done));
            assert(fns0.take(done + 1).last() == fns0[done]);
        }
        let f = rev.pop().unwrap();
        if let Some(g) = ws_function(f) {
            out.push(g);
            proof {
                assert(out@.map(|i: int, g2: Function| function_view(g2)) =~= out0.map(
                    |i: int, g2: Function| function_view(g2),
                ).push(function_view(g)));
            }
        }
    }
    proof {
        assert(fns0.take(fns0.len() as int) =~= fns0);
    }
    out
}

} // verus!
