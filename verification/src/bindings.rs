//! The bindings of a module body, one after the other, and the table of definitions as what
//! they add up to.
//!
//! The scan of `scan` passes a table through the statements. Here the same is said in two
//! steps: which names a piece of syntax binds at module scope, in source order, and what a
//! sequence of bindings makes of a table. `law_definitions_are_bindings_merged` proves that
//! the two accounts agree.

use vstd::prelude::*;

use crate::ast::{
    is_all, Alias, ExceptHandler, Expr, Identifier, IfBranch, MatchCase, Operator, Pattern, Stmt,
    Verdict, WithItem,
};
use crate::definitions::{DefinitionStyle, Table};
use crate::module_name::resolve_relative;
use crate::scan::{
    alias_style, bind, optional_id, scan_assign_targets, scan_branches, scan_case_bodies,
    scan_case_patterns,
    scan_from_imports, scan_handler_bodies, scan_handler_names, scan_imports, scan_pattern,
    scan_patterns, scan_stmt, scan_stmts, scan_target, scan_targets, scan_with_items,
};
use crate::text::{first_index_of, TextRange};

verus! {

/// One binding of a name at module scope.
pub struct Binding {
    pub name: Seq<char>,
    pub range: TextRange,
    pub style: DefinitionStyle,
}

/// The local binding of an identifier.
pub open spec fn local(name: Identifier) -> Binding {
    Binding { name: name.id@, range: name.range, style: DefinitionStyle::Local }
}

/// The local binding of an identifier that may be absent.
pub open spec fn optional_local(name: Option<Identifier>) -> Seq<Binding> {
    match name {
        Some(name) => seq![local(name)],
        None => Seq::empty(),
    }
}

/// The entries after a sequence of bindings, each merged into what the ones before left.
pub open spec fn bind_all(
    entries: Seq<(Seq<char>, (TextRange, DefinitionStyle, usize))>,
    bindings: Seq<Binding>,
) -> Seq<(Seq<char>, (TextRange, DefinitionStyle, usize))>
    decreases bindings.len(),
{
    if bindings.len() == 0 {
        entries
    } else {
        let last = bindings.last();
        bind(bind_all(entries, bindings.drop_last()), last.name, last.range, last.style)
    }
}

/// The names in binding position in an assignment target.
pub open spec fn target_bindings(e: Expr) -> Seq<Binding>
    decreases e,
{
    match e {
        Expr::Name { id, range } => seq![
            Binding { name: id@, range, style: DefinitionStyle::Local },
        ],
        Expr::Tuple { elts } => targets_bindings(elts@),
        Expr::List { elts } => targets_bindings(elts@),
        Expr::Starred { value } => target_bindings(*value),
        _ => Seq::empty(),
    }
}

pub open spec fn targets_bindings(es: Seq<Expr>) -> Seq<Binding>
    decreases es,
{
    if es.len() == 0 {
        Seq::empty()
    } else {
        targets_bindings(es.drop_last()) + target_bindings(es.last())
    }
}

/// The names that a match pattern captures: the pattern's own name, then those of the
/// patterns inside it.
pub open spec fn pattern_bindings(p: Pattern) -> Seq<Binding>
    decreases p,
{
    match p {
        Pattern::MatchStar { name } => optional_local(name),
        Pattern::MatchAs { pattern, name } => match pattern {
            Some(inner) => optional_local(name) + pattern_bindings(*inner),
            None => optional_local(name),
        },
        Pattern::MatchMapping { patterns, rest } => optional_local(rest) + patterns_bindings(
            patterns@,
        ),
        Pattern::MatchSequence { patterns } => patterns_bindings(patterns@),
        Pattern::MatchClass { patterns } => patterns_bindings(patterns@),
        Pattern::MatchOr { patterns } => patterns_bindings(patterns@),
        _ => Seq::empty(),
    }
}

pub open spec fn patterns_bindings(ps: Seq<Pattern>) -> Seq<Binding>
    decreases ps,
{
    if ps.len() == 0 {
        Seq::empty()
    } else {
        patterns_bindings(ps.drop_last()) + pattern_bindings(ps.last())
    }
}

/// What one name of `import ...` binds.
pub open spec fn import_binding(a: Alias) -> Binding {
    match a.asname {
        None => Binding {
            name: a.name.id@.subrange(0, first_index_of(a.name.id@, '.')),
            range: a.name.range,
            style: DefinitionStyle::ImportModule,
        },
        Some(alias) => Binding {
            name: alias.id@,
            range: alias.range,
            style: alias_style(a.name.id@, alias.id@),
        },
    }
}

pub open spec fn imports_bindings(names: Seq<Alias>) -> Seq<Binding>
    decreases names.len(),
{
    if names.len() == 0 {
        Seq::empty()
    } else {
        imports_bindings(names.drop_last()).push(import_binding(names.last()))
    }
}

/// What one name of a from-import binds: nothing where it is the star.
pub open spec fn from_import_bindings(a: Alias) -> Seq<Binding> {
    if a.name.id@ == "*"@ {
        Seq::empty()
    } else {
        match a.asname {
            None => seq![
                Binding { name: a.name.id@, range: a.name.range, style: DefinitionStyle::Import },
            ],
            Some(alias) => seq![
                Binding {
                    name: alias.id@,
                    range: alias.range,
                    style: alias_style(a.name.id@, alias.id@),
                },
            ],
        }
    }
}

pub open spec fn from_imports_bindings(names: Seq<Alias>) -> Seq<Binding>
    decreases names.len(),
{
    if names.len() == 0 {
        Seq::empty()
    } else {
        from_imports_bindings(names.drop_last()) + from_import_bindings(names.last())
    }
}

pub open spec fn with_items_bindings(items: Seq<WithItem>) -> Seq<Binding>
    decreases items.len(),
{
    if items.len() == 0 {
        Seq::empty()
    } else {
        match items.last().optional_vars {
            Some(target) => with_items_bindings(items.drop_last()) + target_bindings(target),
            None => with_items_bindings(items.drop_last()),
        }
    }
}

pub open spec fn case_patterns_bindings(cases: Seq<MatchCase>) -> Seq<Binding>
    decreases cases.len(),
{
    if cases.len() == 0 {
        Seq::empty()
    } else {
        case_patterns_bindings(cases.drop_last()) + pattern_bindings(cases.last().pattern)
    }
}

pub open spec fn handler_names_bindings(handlers: Seq<ExceptHandler>) -> Seq<Binding>
    decreases handlers.len(),
{
    if handlers.len() == 0 {
        Seq::empty()
    } else {
        handler_names_bindings(handlers.drop_last()) + optional_local(handlers.last().name)
    }
}

/// The bindings of one statement at module scope, in source order. A function or a class
/// binds its name alone; a from-import binds nothing where its module lies above the root
/// package; a compound statement binds its own targets and then what the statements nested
/// in it bind; of a conditional only the branches count that its guards let through.
pub open spec fn stmt_bindings(module: Seq<char>, is_init: bool, s: Stmt) -> Seq<Binding>
    decreases s,
{
    match s {
        Stmt::Import { names } => imports_bindings(names@),
        Stmt::ImportFrom { module: from, level, names, range } => match resolve_relative(
            module,
            is_init,
            level as nat,
            optional_id(from),
        ) {
            Some(_) => from_imports_bindings(names@),
            None => Seq::empty(),
        },
        Stmt::ClassDef { name, body } => seq![local(name)],
        Stmt::FunctionDef { name, body } => seq![local(name)],
        Stmt::Assign { targets, value } => targets_bindings(targets@),
        Stmt::AugAssign { target, op, value } => if is_all(target) && op == Operator::Add {
            Seq::empty()
        } else {
            target_bindings(target)
        },
        Stmt::AnnAssign { target } => target_bindings(target),
        Stmt::TypeAlias { name } => target_bindings(name),
        Stmt::For { target, body, orelse } => target_bindings(target) + stmts_bindings(
            module,
            is_init,
            body@,
        ) + stmts_bindings(module, is_init, orelse@),
        Stmt::While { body, orelse } => stmts_bindings(module, is_init, body@) + stmts_bindings(
            module,
            is_init,
            orelse@,
        ),
        Stmt::With { items, body } => with_items_bindings(items@) + stmts_bindings(
            module,
            is_init,
            body@,
        ),
        Stmt::Match { cases } => case_patterns_bindings(cases@) + case_bodies_bindings(
            module,
            is_init,
            cases@,
        ),
        Stmt::Try { body, handlers, orelse, finalbody } => handler_names_bindings(handlers@)
            + stmts_bindings(module, is_init, body@)
            + handler_bodies_bindings(module, is_init, handlers@)
            + stmts_bindings(module, is_init, orelse@)
            + stmts_bindings(module, is_init, finalbody@),
        Stmt::If { branches } => branches_bindings(module, is_init, branches@),
        Stmt::Expr { value } => Seq::empty(),
        Stmt::Other => Seq::empty(),
    }
}

pub open spec fn stmts_bindings(module: Seq<char>, is_init: bool, ss: Seq<Stmt>) -> Seq<Binding>
    decreases ss,
{
    if ss.len() == 0 {
        Seq::empty()
    } else {
        stmts_bindings(module, is_init, ss.drop_last()) + stmt_bindings(module, is_init, ss.last())
    }
}

pub open spec fn case_bodies_bindings(
    module: Seq<char>,
    is_init: bool,
    cases: Seq<MatchCase>,
) -> Seq<Binding>
    decreases cases,
{
    if cases.len() == 0 {
        Seq::empty()
    } else {
        case_bodies_bindings(module, is_init, cases.drop_last()) + stmts_bindings(
            module,
            is_init,
            cases.last().body@,
        )
    }
}

pub open spec fn handler_bodies_bindings(
    module: Seq<char>,
    is_init: bool,
    handlers: Seq<ExceptHandler>,
) -> Seq<Binding>
    decreases handlers,
{
    if handlers.len() == 0 {
        Seq::empty()
    } else {
        handler_bodies_bindings(module, is_init, handlers.drop_last()) + stmts_bindings(
            module,
            is_init,
            handlers.last().body@,
        )
    }
}

pub open spec fn branches_bindings(
    module: Seq<char>,
    is_init: bool,
    branches: Seq<IfBranch>,
) -> Seq<Binding>
    decreases branches,
{
    if branches.len() == 0 {
        Seq::empty()
    } else {
        let first = branches.first();
        let own = if first.verdict == Verdict::False {
            Seq::empty()
        } else {
            stmts_bindings(module, is_init, first.body@)
        };
        if first.verdict == Verdict::True {
            own
        } else {
            own + branches_bindings(module, is_init, branches.drop_first())
        }
    }
}

/// Merging two runs of bindings one after the other is merging the two joined.
pub proof fn lemma_bind_all_joins(
    entries: Seq<(Seq<char>, (TextRange, DefinitionStyle, usize))>,
    front: Seq<Binding>,
    back: Seq<Binding>,
)
    ensures
        bind_all(entries, front + back) == bind_all(bind_all(entries, front), back),
    decreases back.len(),
{
    if back.len() == 0 {
        assert(front + back =~= front);
    } else {
        assert((front + back).drop_last() =~= front + back.drop_last());
        assert((front + back).last() == back.last());
        lemma_bind_all_joins(entries, front, back.drop_last());
    }
}

proof fn lemma_bind_one(
    entries: Seq<(Seq<char>, (TextRange, DefinitionStyle, usize))>,
    b: Binding,
)
    ensures
        bind_all(entries, seq![b]) == bind(entries, b.name, b.range, b.style),
        bind_all(entries, Seq::empty()) == entries,
{
    assert(seq![b].drop_last() =~= Seq::<Binding>::empty());
    assert(bind_all(entries, seq![b].drop_last()) == entries);
}

proof fn lemma_optional(t: Table, name: Option<Identifier>)
    ensures
        t.bind_optional(name).definitions == bind_all(t.definitions, optional_local(name)),
        t.bind_optional(name).import_all == t.import_all,
{
    match name {
        Some(name) => lemma_bind_one(t.definitions, local(name)),
        None => {},
    }
}

proof fn lemma_target(e: Expr, t: Table)
    ensures
        scan_target(e, t).definitions == bind_all(t.definitions, target_bindings(e)),
    decreases e,
{
    match e {
        Expr::Name { id, range } => lemma_bind_one(
            t.definitions,
            Binding { name: id@, range, style: DefinitionStyle::Local },
        ),
        Expr::Tuple { elts } => lemma_targets(elts@, t),
        Expr::List { elts } => lemma_targets(elts@, t),
        Expr::Starred { value } => lemma_target(*value, t),
        _ => {},
    }
}

proof fn lemma_targets(es: Seq<Expr>, t: Table)
    ensures
        scan_targets(es, t).definitions == bind_all(t.definitions, targets_bindings(es)),
    decreases es,
{
    if es.len() > 0 {
        let mid = scan_targets(es.drop_last(), t);
        lemma_targets(es.drop_last(), t);
        lemma_target(es.last(), mid);
        lemma_bind_all_joins(
            t.definitions,
            targets_bindings(es.drop_last()),
            target_bindings(es.last()),
        );
    }
}

proof fn lemma_pattern(p: Pattern, t: Table)
    ensures
        scan_pattern(p, t).definitions == bind_all(t.definitions, pattern_bindings(p)),
    decreases p,
{
    match p {
        Pattern::MatchStar { name } => lemma_optional(t, name),
        Pattern::MatchAs { pattern, name } => {
            lemma_optional(t, name);
            match pattern {
                Some(inner) => {
                    lemma_pattern(*inner, t.bind_optional(name));
                    lemma_bind_all_joins(
                        t.definitions,
                        optional_local(name),
                        pattern_bindings(*inner),
                    );
                },
                None => {},
            }
        },
        Pattern::MatchMapping { patterns, rest } => {
            lemma_optional(t, rest);
            lemma_patterns(patterns@, t.bind_optional(rest));
            lemma_bind_all_joins(t.definitions, optional_local(rest), patterns_bindings(patterns@));
        },
        Pattern::MatchSequence { patterns } => lemma_patterns(patterns@, t),
        Pattern::MatchClass { patterns } => lemma_patterns(patterns@, t),
        Pattern::MatchOr { patterns } => lemma_patterns(patterns@, t),
        _ => {},
    }
}

proof fn lemma_patterns(ps: Seq<Pattern>, t: Table)
    ensures
        scan_patterns(ps, t).definitions == bind_all(t.definitions, patterns_bindings(ps)),
    decreases ps,
{
    if ps.len() > 0 {
        let mid = scan_patterns(ps.drop_last(), t);
        lemma_patterns(ps.drop_last(), t);
        lemma_pattern(ps.last(), mid);
        lemma_bind_all_joins(
            t.definitions,
            patterns_bindings(ps.drop_last()),
            pattern_bindings(ps.last()),
        );
    }
}

proof fn lemma_imports(names: Seq<Alias>, t: Table)
    ensures
        scan_imports(names, t).definitions == bind_all(t.definitions, imports_bindings(names)),
    decreases names.len(),
{
    if names.len() > 0 {
        lemma_imports(names.drop_last(), t);
        assert(imports_bindings(names).drop_last() =~= imports_bindings(names.drop_last()));
    }
}

proof fn lemma_from_imports(source: Seq<char>, range: TextRange, names: Seq<Alias>, t: Table)
    ensures
        scan_from_imports(source, range, names, t).definitions == bind_all(
            t.definitions,
            from_imports_bindings(names),
        ),
    decreases names.len(),
{
    if names.len() > 0 {
        let mid = scan_from_imports(source, range, names.drop_last(), t);
        lemma_from_imports(source, range, names.drop_last(), t);
        let a = names.last();
        if a.name.id@ != "*"@ {
            lemma_bind_one(mid.definitions, from_import_bindings(a)[0]);
        }
        lemma_bind_all_joins(
            t.definitions,
            from_imports_bindings(names.drop_last()),
            from_import_bindings(a),
        );
    }
}

proof fn lemma_assign_targets(targets: Seq<Expr>, value: Expr, t: Table)
    ensures
        scan_assign_targets(targets, value, t).definitions == bind_all(
            t.definitions,
            targets_bindings(targets),
        ),
    decreases targets.len(),
{
    if targets.len() > 0 {
        let mid = scan_assign_targets(targets.drop_last(), value, t);
        lemma_assign_targets(targets.drop_last(), value, t);
        lemma_target(targets.last(), mid);
        lemma_bind_all_joins(
            t.definitions,
            targets_bindings(targets.drop_last()),
            target_bindings(targets.last()),
        );
    }
}

proof fn lemma_with_items(items: Seq<WithItem>, t: Table)
    ensures
        scan_with_items(items, t).definitions == bind_all(
            t.definitions,
            with_items_bindings(items),
        ),
    decreases items.len(),
{
    if items.len() > 0 {
        let mid = scan_with_items(items.drop_last(), t);
        lemma_with_items(items.drop_last(), t);
        match items.last().optional_vars {
            Some(target) => {
                lemma_target(target, mid);
                lemma_bind_all_joins(
                    t.definitions,
                    with_items_bindings(items.drop_last()),
                    target_bindings(target),
                );
            },
            None => {},
        }
    }
}

proof fn lemma_case_patterns(cases: Seq<MatchCase>, t: Table)
    ensures
        scan_case_patterns(cases, t).definitions == bind_all(
            t.definitions,
            case_patterns_bindings(cases),
        ),
    decreases cases.len(),
{
    if cases.len() > 0 {
        let mid = scan_case_patterns(cases.drop_last(), t);
        lemma_case_patterns(cases.drop_last(), t);
        lemma_pattern(cases.last().pattern, mid);
        lemma_bind_all_joins(
            t.definitions,
            case_patterns_bindings(cases.drop_last()),
            pattern_bindings(cases.last().pattern),
        );
    }
}

proof fn lemma_handler_names(handlers: Seq<ExceptHandler>, t: Table)
    ensures
        scan_handler_names(handlers, t).definitions == bind_all(
            t.definitions,
            handler_names_bindings(handlers),
        ),
    decreases handlers.len(),
{
    if handlers.len() > 0 {
        let mid = scan_handler_names(handlers.drop_last(), t);
        lemma_handler_names(handlers.drop_last(), t);
        lemma_optional(mid, handlers.last().name);
        lemma_bind_all_joins(
            t.definitions,
            handler_names_bindings(handlers.drop_last()),
            optional_local(handlers.last().name),
        );
    }
}

proof fn lemma_stmt(module: Seq<char>, is_init: bool, s: Stmt, t: Table)
    ensures
        scan_stmt(module, is_init, s, t).definitions == bind_all(
            t.definitions,
            stmt_bindings(module, is_init, s),
        ),
    decreases s,
{
    let d = t.definitions;
    match s {
        Stmt::Import { names } => lemma_imports(names@, t),
        Stmt::ImportFrom { module: from, level, names, range } => match resolve_relative(
            module,
            is_init,
            level as nat,
            optional_id(from),
        ) {
            Some(source) => lemma_from_imports(source, range, names@, t),
            None => {},
        },
        Stmt::ClassDef { name, body } => lemma_bind_one(d, local(name)),
        Stmt::FunctionDef { name, body } => lemma_bind_one(d, local(name)),
        Stmt::Assign { targets, value } => lemma_assign_targets(targets@, value, t),
        Stmt::AugAssign { target, op, value } => lemma_target(target, t),
        Stmt::AnnAssign { target } => lemma_target(target, t),
        Stmt::TypeAlias { name } => lemma_target(name, t),
        Stmt::For { target, body, orelse } => {
            let a = scan_target(target, t);
            lemma_target(target, t);
            let b = scan_stmts(module, is_init, body@, a);
            lemma_stmts(module, is_init, body@, a);
            lemma_stmts(module, is_init, orelse@, b);
            let inner = stmts_bindings(module, is_init, body@);
            lemma_bind_all_joins(d, target_bindings(target), inner);
            lemma_bind_all_joins(
                d,
                target_bindings(target) + stmts_bindings(module, is_init, body@),
                stmts_bindings(module, is_init, orelse@),
            );
        },
        Stmt::While { body, orelse } => {
            let a = scan_stmts(module, is_init, body@, t);
            lemma_stmts(module, is_init, body@, t);
            lemma_stmts(module, is_init, orelse@, a);
            lemma_bind_all_joins(
                d,
                stmts_bindings(module, is_init, body@),
                stmts_bindings(module, is_init, orelse@),
            );
        },
        Stmt::With { items, body } => {
            let a = scan_with_items(items@, t);
            lemma_with_items(items@, t);
            lemma_stmts(module, is_init, body@, a);
            let inner = stmts_bindings(module, is_init, body@);
            lemma_bind_all_joins(d, with_items_bindings(items@), inner);
        },
        Stmt::Match { cases } => {
            let a = scan_case_patterns(cases@, t);
            lemma_case_patterns(cases@, t);
            lemma_case_bodies(module, is_init, cases@, a);
            let inner = case_bodies_bindings(module, is_init, cases@);
            lemma_bind_all_joins(d, case_patterns_bindings(cases@), inner);
        },
        Stmt::Try { body, handlers, orelse, finalbody } => {
            let names = handler_names_bindings(handlers@);
            let in_body = stmts_bindings(module, is_init, body@);
            let in_handlers = handler_bodies_bindings(module, is_init, handlers@);
            let in_orelse = stmts_bindings(module, is_init, orelse@);
            let in_finalbody = stmts_bindings(module, is_init, finalbody@);
            let a = scan_handler_names(handlers@, t);
            lemma_handler_names(handlers@, t);
            let b = scan_stmts(module, is_init, body@, a);
            lemma_stmts(module, is_init, body@, a);
            lemma_bind_all_joins(d, names, in_body);
            let c = scan_handler_bodies(module, is_init, handlers@, b);
            lemma_handler_bodies(module, is_init, handlers@, b);
            lemma_bind_all_joins(d, names + in_body, in_handlers);
            let e = scan_stmts(module, is_init, orelse@, c);
            lemma_stmts(module, is_init, orelse@, c);
            lemma_bind_all_joins(d, names + in_body + in_handlers, in_orelse);
            lemma_stmts(module, is_init, finalbody@, e);
            lemma_bind_all_joins(d, names + in_body + in_handlers + in_orelse, in_finalbody);
        },
        Stmt::If { branches } => lemma_branches(module, is_init, branches@, t),
        Stmt::Expr { value } => {},
        Stmt::Other => {},
    }
}

proof fn lemma_stmts(module: Seq<char>, is_init: bool, ss: Seq<Stmt>, t: Table)
    ensures
        scan_stmts(module, is_init, ss, t).definitions == bind_all(
            t.definitions,
            stmts_bindings(module, is_init, ss),
        ),
    decreases ss,
{
    if ss.len() > 0 {
        let mid = scan_stmts(module, is_init, ss.drop_last(), t);
        lemma_stmts(module, is_init, ss.drop_last(), t);
        lemma_stmt(module, is_init, ss.last(), mid);
        lemma_bind_all_joins(
            t.definitions,
            stmts_bindings(module, is_init, ss.drop_last()),
            stmt_bindings(module, is_init, ss.last()),
        );
    }
}

proof fn lemma_case_bodies(module: Seq<char>, is_init: bool, cases: Seq<MatchCase>, t: Table)
    ensures
        scan_case_bodies(module, is_init, cases, t).definitions == bind_all(
            t.definitions,
            case_bodies_bindings(module, is_init, cases),
        ),
    decreases cases,
{
    if cases.len() > 0 {
        let mid = scan_case_bodies(module, is_init, cases.drop_last(), t);
        lemma_case_bodies(module, is_init, cases.drop_last(), t);
        lemma_stmts(module, is_init, cases.last().body@, mid);
        lemma_bind_all_joins(
            t.definitions,
            case_bodies_bindings(module, is_init, cases.drop_last()),
            stmts_bindings(module, is_init, cases.last().body@),
        );
    }
}

proof fn lemma_handler_bodies(
    module: Seq<char>,
    is_init: bool,
    handlers: Seq<ExceptHandler>,
    t: Table,
)
    ensures
        scan_handler_bodies(module, is_init, handlers, t).definitions == bind_all(
            t.definitions,
            handler_bodies_bindings(module, is_init, handlers),
        ),
    decreases handlers,
{
    if handlers.len() > 0 {
        let mid = scan_handler_bodies(module, is_init, handlers.drop_last(), t);
        lemma_handler_bodies(module, is_init, handlers.drop_last(), t);
        lemma_stmts(module, is_init, handlers.last().body@, mid);
        lemma_bind_all_joins(
            t.definitions,
            handler_bodies_bindings(module, is_init, handlers.drop_last()),
            stmts_bindings(module, is_init, handlers.last().body@),
        );
    }
}

proof fn lemma_branches(module: Seq<char>, is_init: bool, branches: Seq<IfBranch>, t: Table)
    ensures
        scan_branches(module, is_init, branches, t).definitions == bind_all(
            t.definitions,
            branches_bindings(module, is_init, branches),
        ),
    decreases branches,
{
    if branches.len() > 0 {
        let first = branches.first();
        let after = if first.verdict == Verdict::False {
            t
        } else {
            scan_stmts(module, is_init, first.body@, t)
        };
        let own = if first.verdict == Verdict::False {
            Seq::<Binding>::empty()
        } else {
            stmts_bindings(module, is_init, first.body@)
        };
        if first.verdict != Verdict::False {
            lemma_stmts(module, is_init, first.body@, t);
        }
        if first.verdict != Verdict::True {
            lemma_branches(module, is_init, branches.drop_first(), after);
            let rest = branches_bindings(module, is_init, branches.drop_first());
            lemma_bind_all_joins(t.definitions, own, rest);
        }
    }
}

/// The definitions after a module body are its bindings merged one after the other into
/// the definitions before it. The wildcard imports and the export list have no part in
/// them.
pub proof fn law_definitions_are_bindings_merged(
    module: Seq<char>,
    is_init: bool,
    body: Seq<Stmt>,
    t: Table,
)
    ensures
        scan_stmts(module, is_init, body, t).definitions == bind_all(
            t.definitions,
            stmts_bindings(module, is_init, body),
        ),
{
    lemma_stmts(module, is_init, body, t);
}

} // verus!
