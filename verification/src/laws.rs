//! What holds of every scan, stated over the functions of `scan` and proved.

use vstd::prelude::*;

use crate::ast::{
    dunder_all, is_all, Alias, ExceptHandler, Expr, Identifier, IfBranch, MatchCase, Operator,
    Pattern, Stmt, Verdict, WithItem,
};
use crate::definitions::{
    default_exports, default_names, wildcard_ops, DefinitionStyle, Definitions, ExportOp,
    ModuleStyle, Table,
};
use crate::ordered_map::{distinct_keys, lemma_position, position};
use crate::module_name::resolve_relative;
use crate::scan::{
    add_wildcard, alias_style, bind, bump, item_op, items_ops, lemma_bind_keeps_wf, list_ops,
    method_ops, optional_id, rank,
    scan_assign_target, scan_assign_targets, scan_branches, scan_case_bodies, scan_case_patterns,
    scan_from_import, scan_from_imports, scan_handler_bodies, scan_handler_names,
    scan_imports, scan_pattern, scan_patterns, scan_stmt, scan_stmts, scan_target, scan_targets,
    scan_with_items, stronger,
};
use crate::text::{first_index_of, TextRange};

verus! {

/// The scan is a function of the module's body, its name and whether it is a package
/// initializer: two tables that it gave for the same three hold the same.
pub proof fn law_scan_is_deterministic(
    first: Definitions,
    second: Definitions,
    body: Seq<Stmt>,
    module: Seq<char>,
    is_init: bool,
)
    requires
        first@ == scan_stmts(module, is_init, body, Table::empty()),
        second@ == scan_stmts(module, is_init, body, Table::empty()),
    ensures
        first@ == second@,
        first@.definitions == second@.definitions,
        first@.import_all == second@.import_all,
        first@.dunder_all == second@.dunder_all,
{
}

/// A name that is bound again keeps its place and its range, has the stronger of the two
/// styles, and has been counted once more; every other entry is as it was.
pub proof fn law_rebinding_merges(
    entries: Seq<(Seq<char>, (TextRange, DefinitionStyle, usize))>,
    name: Seq<char>,
    range: TextRange,
    style: DefinitionStyle,
)
    requires
        distinct_keys(entries),
        position(entries, name) >= 0,
    ensures
        ({
            let p = position(entries, name);
            let after = bind(entries, name, range, style);
            &&& after.len() == entries.len()
            &&& position(after, name) == p
            &&& after[p].1.0 == entries[p].1.0
            &&& after[p].1.1 == stronger(entries[p].1.1, style)
            &&& rank(after[p].1.1) <= rank(entries[p].1.1)
            &&& rank(after[p].1.1) <= rank(style)
            &&& after[p].1.2 == bump(entries[p].1.2)
            &&& forall|i: int| 0 <= i < entries.len() && i != p ==> after[i] == entries[i]
        }),
{
    lemma_position(entries, name);
    let after = bind(entries, name, range, style);
    lemma_position(after, name);
    let p = position(entries, name);
    let q = position(after, name);
    assert(after[p].0 == name);
    if q < p {
        assert(after[q] == entries[q]);
    }
}

/// A name that is first imported and then defined in the module is local and has the
/// count two, with the range of the import.
pub proof fn law_local_wins_over_import(
    entries: Seq<(Seq<char>, (TextRange, DefinitionStyle, usize))>,
    name: Seq<char>,
    imported_at: TextRange,
    defined_at: TextRange,
)
    requires
        distinct_keys(entries),
        position(entries, name) < 0,
    ensures
        ({
            let once = bind(entries, name, imported_at, DefinitionStyle::Import);
            let twice = bind(once, name, defined_at, DefinitionStyle::Local);
            &&& position(twice, name) == entries.len()
            &&& twice.len() == entries.len() + 1
            &&& twice[position(twice, name)].1 == (imported_at, DefinitionStyle::Local, 2usize)
        }),
{
    lemma_position(entries, name);
    let once = bind(entries, name, imported_at, DefinitionStyle::Import);
    lemma_position(once, name);
    assert(once[entries.len() as int].0 == name);
    assert forall|j: int| 0 <= j < entries.len() implies (#[trigger] once[j]).0 != name by {
        assert(once[j] == entries[j]);
    }
    assert(position(once, name) == entries.len());
    let twice = bind(once, name, defined_at, DefinitionStyle::Local);
    lemma_position(twice, name);
    assert(twice[entries.len() as int].0 == name);
    assert forall|j: int| 0 <= j < entries.len() implies (#[trigger] twice[j]).0 != name by {
        assert(twice[j] == entries[j]);
    }
}

/// Whatever a function or a class holds in its body, the scan binds its name and nothing
/// else: no name of the body reaches the table.
pub proof fn law_scope_isolation(
    module: Seq<char>,
    is_init: bool,
    name: Identifier,
    body: Vec<Stmt>,
    t: Table,
)
    ensures
        scan_stmt(module, is_init, Stmt::FunctionDef { name, body }, t) == t.bind_identifier(
            name,
            DefinitionStyle::Local,
        ),
        scan_stmt(module, is_init, Stmt::ClassDef { name, body }, t) == t.bind_identifier(
            name,
            DefinitionStyle::Local,
        ),
{
}

/// Scanning a body is scanning its front and then, on the table that this left, its back.
pub proof fn law_scan_composes(
    module: Seq<char>,
    is_init: bool,
    front: Seq<Stmt>,
    back: Seq<Stmt>,
    t: Table,
)
    ensures
        scan_stmts(module, is_init, front + back, t) == scan_stmts(
            module,
            is_init,
            back,
            scan_stmts(module, is_init, front, t),
        ),
    decreases back.len(),
{
    if back.len() == 0 {
        assert(front + back =~= front);
    } else {
        assert((front + back).drop_last() =~= front + back.drop_last());
        assert((front + back).last() == back.last());
        law_scan_composes(module, is_init, front, back.drop_last(), t);
    }
}

/// A branch whose guard is known to be false contributes nothing.
pub proof fn law_false_branch_is_skipped(
    module: Seq<char>,
    is_init: bool,
    first: IfBranch,
    rest: Seq<IfBranch>,
    t: Table,
)
    requires
        first.verdict == Verdict::False,
    ensures
        scan_branches(module, is_init, seq![first] + rest, t) == scan_branches(
            module,
            is_init,
            rest,
            t,
        ),
{
    assert((seq![first] + rest).drop_first() =~= rest);
}

/// A branch whose guard is known to be true contributes its bindings, and no branch after
/// it is looked at.
pub proof fn law_true_branch_ends_the_chain(
    module: Seq<char>,
    is_init: bool,
    first: IfBranch,
    rest: Seq<IfBranch>,
    t: Table,
)
    requires
        first.verdict == Verdict::True,
    ensures
        scan_branches(module, is_init, seq![first] + rest, t) == scan_stmts(
            module,
            is_init,
            first.body@,
            t,
        ),
{
}

/// A branch whose guard is unknown contributes its bindings, and so do the branches after
/// it, as far as their own guards let them.
pub proof fn law_unknown_branch_is_joined(
    module: Seq<char>,
    is_init: bool,
    first: IfBranch,
    rest: Seq<IfBranch>,
    t: Table,
)
    requires
        first.verdict == Verdict::Unknown,
    ensures
        scan_branches(module, is_init, seq![first] + rest, t) == scan_branches(
            module,
            is_init,
            rest,
            scan_stmts(module, is_init, first.body@, t),
        ),
{
    assert((seq![first] + rest).drop_first() =~= rest);
}

/// The operations of a list are those of its front followed by those of its back: the log
/// keeps the order of the source.
pub proof fn law_items_keep_source_order(front: Seq<Expr>, back: Seq<Expr>)
    ensures
        items_ops(front + back) == items_ops(front) + items_ops(back),
    decreases back.len(),
{
    if back.len() == 0 {
        assert(front + back =~= front);
        assert(items_ops(front) + items_ops(back) =~= items_ops(front));
    } else {
        assert((front + back).drop_last() =~= front + back.drop_last());
        assert((front + back).last() == back.last());
        law_items_keep_source_order(front, back.drop_last());
        assert(items_ops(front + back) =~= items_ops(front) + items_ops(back));
    }
}

/// A list of literal texts gives one operation for each element, in the place of the
/// element.
pub proof fn law_literal_items_map_one_to_one(elts: Seq<Expr>)
    requires
        forall|i: int| 0 <= i < elts.len() ==> (#[trigger] elts[i]) is StringLiteral,
    ensures
        items_ops(elts).len() == elts.len(),
        forall|i: int|
            0 <= i < elts.len() ==> Some(#[trigger] items_ops(elts)[i]) == item_op(elts[i]),
    decreases elts.len(),
{
    if elts.len() > 0 {
        let front = elts.drop_last();
        assert forall|i: int| 0 <= i < front.len() implies (
        #[trigger] front[i]) is StringLiteral by {
            assert(front[i] == elts[i]);
        }
        law_literal_items_map_one_to_one(front);
        assert(elts.last() is StringLiteral);
        assert forall|i: int| 0 <= i < elts.len() implies Some(#[trigger] items_ops(elts)[i])
            == item_op(elts[i]) by {
            if i < front.len() {
                assert(front[i] == elts[i]);
                assert(items_ops(elts)[i] == items_ops(front)[i]);
            }
        }
    }
}

/// `__all__.remove('name')` adds a remove operation at the end of the log and removes
/// nothing from it.
pub proof fn law_remove_is_logged(log: Seq<ExportOp>, name: String, range: TextRange)
    ensures
        method_ops(log, "remove"@, Expr::StringLiteral { value: name, range }) == log.push(
            ExportOp::Remove(range, name@),
        ),
{
    reveal_strlit("remove");
    reveal_strlit("extend");
    reveal_strlit("append");
    assert("remove"@ != "extend"@) by {
        assert("remove"@[0] != "extend"@[0]);
    }
    assert("remove"@ != "append"@) by {
        assert("remove"@[0] != "append"@[0]);
    }
}

/// An assignment to `__all__` replaces the log by the operations of its right-hand side,
/// whatever the log held.
pub proof fn law_assignment_resets_log(target: Expr, value: Expr, t: Table)
    requires
        is_all(target),
    ensures
        scan_assign_target(target, value, t).dunder_all == list_ops(value),
{
}

/// `__all__ += value` adds the operations of `value` at the end of the log and binds no
/// name.
pub proof fn law_augmented_assignment_appends(
    module: Seq<char>,
    is_init: bool,
    target: Expr,
    value: Expr,
    t: Table,
)
    requires
        is_all(target),
    ensures
        scan_stmt(module, is_init, Stmt::AugAssign { target, op: Operator::Add, value }, t)
            == t.with_log(t.dunder_all + list_ops(value)),
{
}

/// An interface exports no wildcard import by default, and an executable module exports
/// each of them before any name.
pub proof fn law_default_exports_by_style(t: Table)
    ensures
        default_exports(ModuleStyle::Interface, t) == default_names(
            ModuleStyle::Interface,
            t.definitions,
        ),
        default_exports(ModuleStyle::Executable, t) == wildcard_ops(t.import_all) + default_names(
            ModuleStyle::Executable,
            t.definitions,
        ),
{
}

/// A log that holds an operation is an export list of the module's own: giving the module
/// its default export list leaves such a table as it is, and so it does where the module
/// binds `__all__`.
pub proof fn law_explicit_exports_are_kept(
    before: Definitions,
    after: Definitions,
    style: ModuleStyle,
)
    requires
        position(before@.definitions, dunder_all()) >= 0 || before@.dunder_all.len() > 0,
        after@ == (if position(before@.definitions, dunder_all()) >= 0 || before@.dunder_all.len()
            > 0 {
            before@
        } else {
            before@.with_log(default_exports(style, before@))
        }),
    ensures
        after@ == before@,
        after@.dunder_all == before@.dunder_all,
{
}

/// An assignment to an attribute or to a subscript binds nothing, whatever names it
/// mentions.
pub proof fn law_attribute_and_subscript_bind_nothing(
    value: Box<Expr>,
    attr: Identifier,
    slice: Box<Expr>,
    t: Table,
)
    ensures
        scan_target(Expr::Attribute { value, attr }, t) == t,
        scan_target(Expr::Subscript { value, slice }, t) == t,
{
}

/// Whether an entry is what became of an earlier one: the same name with the same range,
/// a style that is no weaker and a count that is no lower.
pub open spec fn entry_kept(
    before: (Seq<char>, (TextRange, DefinitionStyle, usize)),
    after: (Seq<char>, (TextRange, DefinitionStyle, usize)),
) -> bool {
    &&& after.0 == before.0
    &&& after.1.0 == before.1.0
    &&& rank(after.1.1) <= rank(before.1.1)
    &&& after.1.2 >= before.1.2
}

/// Whether a table is well formed and holds all that an earlier one held: every name in
/// its place, and every wildcard import as it was.
pub open spec fn extends(before: Table, after: Table) -> bool {
    &&& after.wf()
    &&& before.definitions.len() <= after.definitions.len()
    &&& forall|i: int|
        0 <= i < before.definitions.len() ==> entry_kept(
            #[trigger] before.definitions[i],
            after.definitions[i],
        )
    &&& before.import_all.len() <= after.import_all.len()
    &&& forall|i: int|
        0 <= i < before.import_all.len() ==> after.import_all[i]
            == #[trigger] before.import_all[i]
}

proof fn lemma_extends_chains(a: Table, b: Table, c: Table)
    requires
        extends(a, b),
        extends(b, c),
    ensures
        extends(a, c),
{
    assert forall|i: int| 0 <= i < a.definitions.len() implies entry_kept(
        #[trigger] a.definitions[i],
        c.definitions[i],
    ) by {
        assert(entry_kept(a.definitions[i], b.definitions[i]));
        assert(entry_kept(b.definitions[i], c.definitions[i]));
    }
    assert forall|i: int| 0 <= i < a.import_all.len() implies c.import_all[i]
        == #[trigger] a.import_all[i] by {
        assert(b.import_all[i] == a.import_all[i]);
        assert(c.import_all[i] == b.import_all[i]);
    }
}

proof fn lemma_bind_extends(t: Table, name: Seq<char>, range: TextRange, style: DefinitionStyle)
    requires
        t.wf(),
    ensures
        extends(t, t.bind(name, range, style)),
{
    lemma_bind_keeps_wf(t.definitions, name, range, style);
    lemma_position(t.definitions, name);
    let after = t.bind(name, range, style);
    assert forall|i: int| 0 <= i < t.definitions.len() implies entry_kept(
        #[trigger] t.definitions[i],
        after.definitions[i],
    ) by {}
}

proof fn lemma_bind_optional_extends(t: Table, name: Option<Identifier>)
    requires
        t.wf(),
    ensures
        extends(t, t.bind_optional(name)),
{
    match name {
        Some(name) => lemma_bind_extends(t, name.id@, name.range, DefinitionStyle::Local),
        None => {},
    }
}

proof fn lemma_wildcard_extends(t: Table, module: Seq<char>, range: TextRange)
    requires
        t.wf(),
    ensures
        extends(t, Table { import_all: add_wildcard(t.import_all, module, range), ..t }),
{
    lemma_position(t.import_all, module);
    let after = add_wildcard(t.import_all, module, range);
    assert forall|i: int, j: int| 0 <= i < j < after.len() implies (#[trigger] after[i]).0 != (
    #[trigger] after[j]).0 by {
        if j < t.import_all.len() {
            assert(after[i] == t.import_all[i]);
            assert(after[j] == t.import_all[j]);
        } else {
            assert(after[i] == t.import_all[i]);
        }
    }
}

proof fn lemma_target_extends(e: Expr, t: Table)
    requires
        t.wf(),
    ensures
        extends(t, scan_target(e, t)),
    decreases e,
{
    match e {
        Expr::Name { id, range } => lemma_bind_extends(t, id@, range, DefinitionStyle::Local),
        Expr::Tuple { elts } => lemma_targets_extend(elts@, t),
        Expr::List { elts } => lemma_targets_extend(elts@, t),
        Expr::Starred { value } => lemma_target_extends(*value, t),
        _ => {},
    }
}

proof fn lemma_targets_extend(es: Seq<Expr>, t: Table)
    requires
        t.wf(),
    ensures
        extends(t, scan_targets(es, t)),
    decreases es,
{
    if es.len() > 0 {
        let mid = scan_targets(es.drop_last(), t);
        lemma_targets_extend(es.drop_last(), t);
        lemma_target_extends(es.last(), mid);
        lemma_extends_chains(t, mid, scan_targets(es, t));
    }
}

proof fn lemma_pattern_extends(p: Pattern, t: Table)
    requires
        t.wf(),
    ensures
        extends(t, scan_pattern(p, t)),
    decreases p,
{
    match p {
        Pattern::MatchStar { name } => lemma_bind_optional_extends(t, name),
        Pattern::MatchAs { pattern, name } => {
            lemma_bind_optional_extends(t, name);
            match pattern {
                Some(inner) => {
                    lemma_pattern_extends(*inner, t.bind_optional(name));
                    lemma_extends_chains(t, t.bind_optional(name), scan_pattern(p, t));
                },
                None => {},
            }
        },
        Pattern::MatchMapping { patterns, rest } => {
            lemma_bind_optional_extends(t, rest);
            lemma_patterns_extend(patterns@, t.bind_optional(rest));
            lemma_extends_chains(t, t.bind_optional(rest), scan_pattern(p, t));
        },
        Pattern::MatchSequence { patterns } => lemma_patterns_extend(patterns@, t),
        Pattern::MatchClass { patterns } => lemma_patterns_extend(patterns@, t),
        Pattern::MatchOr { patterns } => lemma_patterns_extend(patterns@, t),
        _ => {},
    }
}

proof fn lemma_patterns_extend(ps: Seq<Pattern>, t: Table)
    requires
        t.wf(),
    ensures
        extends(t, scan_patterns(ps, t)),
    decreases ps,
{
    if ps.len() > 0 {
        let mid = scan_patterns(ps.drop_last(), t);
        lemma_patterns_extend(ps.drop_last(), t);
        lemma_pattern_extends(ps.last(), mid);
        lemma_extends_chains(t, mid, scan_patterns(ps, t));
    }
}

proof fn lemma_imports_extend(names: Seq<Alias>, t: Table)
    requires
        t.wf(),
    ensures
        extends(t, scan_imports(names, t)),
    decreases names.len(),
{
    if names.len() > 0 {
        let mid = scan_imports(names.drop_last(), t);
        lemma_imports_extend(names.drop_last(), t);
        let a = names.last();
        match a.asname {
            None => lemma_bind_extends(
                mid,
                a.name.id@.subrange(0, first_index_of(a.name.id@, '.')),
                a.name.range,
                DefinitionStyle::ImportModule,
            ),
            Some(alias) => lemma_bind_extends(
                mid,
                alias.id@,
                alias.range,
                alias_style(a.name.id@, alias.id@),
            ),
        }
        lemma_extends_chains(t, mid, scan_imports(names, t));
    }
}

proof fn lemma_from_import_extends(source: Seq<char>, range: TextRange, a: Alias, t: Table)
    requires
        t.wf(),
    ensures
        extends(t, scan_from_import(source, range, a, t)),
{
    if a.name.id@ == "*"@ {
        lemma_wildcard_extends(t, source, a.name.range);
    } else {
        match a.asname {
            None => lemma_bind_extends(t, a.name.id@, a.name.range, DefinitionStyle::Import),
            Some(alias) => lemma_bind_extends(
                t,
                alias.id@,
                alias.range,
                alias_style(a.name.id@, alias.id@),
            ),
        }
    }
}

proof fn lemma_from_imports_extend(source: Seq<char>, range: TextRange, names: Seq<Alias>, t: Table)
    requires
        t.wf(),
    ensures
        extends(t, scan_from_imports(source, range, names, t)),
    decreases names.len(),
{
    if names.len() > 0 {
        let mid = scan_from_imports(source, range, names.drop_last(), t);
        lemma_from_imports_extend(source, range, names.drop_last(), t);
        lemma_from_import_extends(source, range, names.last(), mid);
        lemma_extends_chains(t, mid, scan_from_imports(source, range, names, t));
    }
}

proof fn lemma_assign_targets_extend(targets: Seq<Expr>, value: Expr, t: Table)
    requires
        t.wf(),
    ensures
        extends(t, scan_assign_targets(targets, value, t)),
    decreases targets.len(),
{
    if targets.len() > 0 {
        let mid = scan_assign_targets(targets.drop_last(), value, t);
        lemma_assign_targets_extend(targets.drop_last(), value, t);
        lemma_target_extends(targets.last(), mid);
        lemma_extends_chains(t, mid, scan_assign_targets(targets, value, t));
    }
}

proof fn lemma_with_items_extend(items: Seq<WithItem>, t: Table)
    requires
        t.wf(),
    ensures
        extends(t, scan_with_items(items, t)),
    decreases items.len(),
{
    if items.len() > 0 {
        let mid = scan_with_items(items.drop_last(), t);
        lemma_with_items_extend(items.drop_last(), t);
        match items.last().optional_vars {
            Some(target) => lemma_target_extends(target, mid),
            None => {},
        }
        lemma_extends_chains(t, mid, scan_with_items(items, t));
    }
}

proof fn lemma_case_patterns_extend(cases: Seq<MatchCase>, t: Table)
    requires
        t.wf(),
    ensures
        extends(t, scan_case_patterns(cases, t)),
    decreases cases.len(),
{
    if cases.len() > 0 {
        let mid = scan_case_patterns(cases.drop_last(), t);
        lemma_case_patterns_extend(cases.drop_last(), t);
        lemma_pattern_extends(cases.last().pattern, mid);
        lemma_extends_chains(t, mid, scan_case_patterns(cases, t));
    }
}

proof fn lemma_handler_names_extend(handlers: Seq<ExceptHandler>, t: Table)
    requires
        t.wf(),
    ensures
        extends(t, scan_handler_names(handlers, t)),
    decreases handlers.len(),
{
    if handlers.len() > 0 {
        let mid = scan_handler_names(handlers.drop_last(), t);
        lemma_handler_names_extend(handlers.drop_last(), t);
        lemma_bind_optional_extends(mid, handlers.last().name);
        lemma_extends_chains(t, mid, scan_handler_names(handlers, t));
    }
}

proof fn lemma_stmt_extends(module: Seq<char>, is_init: bool, s: Stmt, t: Table)
    requires
        t.wf(),
    ensures
        extends(t, scan_stmt(module, is_init, s, t)),
    decreases s,
{
    match s {
        Stmt::Import { names } => lemma_imports_extend(names@, t),
        Stmt::ImportFrom { module: from, level, names, range } => match resolve_relative(
            module,
            is_init,
            level as nat,
            optional_id(from),
        ) {
            Some(source) => lemma_from_imports_extend(source, range, names@, t),
            None => {},
        },
        Stmt::ClassDef { name, body } => lemma_bind_extends(
            t,
            name.id@,
            name.range,
            DefinitionStyle::Local,
        ),
        Stmt::FunctionDef { name, body } => lemma_bind_extends(
            t,
            name.id@,
            name.range,
            DefinitionStyle::Local,
        ),
        Stmt::Assign { targets, value } => lemma_assign_targets_extend(targets@, value, t),
        Stmt::AugAssign { target, op, value } => lemma_target_extends(target, t),
        Stmt::AnnAssign { target } => lemma_target_extends(target, t),
        Stmt::TypeAlias { name } => lemma_target_extends(name, t),
        Stmt::For { target, body, orelse } => {
            let a = scan_target(target, t);
            lemma_target_extends(target, t);
            let b = scan_stmts(module, is_init, body@, a);
            lemma_stmts_extend(module, is_init, body@, a);
            lemma_stmts_extend(module, is_init, orelse@, b);
            lemma_extends_chains(t, a, b);
            lemma_extends_chains(t, b, scan_stmt(module, is_init, s, t));
        },
        Stmt::While { body, orelse } => {
            let a = scan_stmts(module, is_init, body@, t);
            lemma_stmts_extend(module, is_init, body@, t);
            lemma_stmts_extend(module, is_init, orelse@, a);
            lemma_extends_chains(t, a, scan_stmt(module, is_init, s, t));
        },
        Stmt::With { items, body } => {
            let a = scan_with_items(items@, t);
            lemma_with_items_extend(items@, t);
            lemma_stmts_extend(module, is_init, body@, a);
            lemma_extends_chains(t, a, scan_stmt(module, is_init, s, t));
        },
        Stmt::Match { cases } => {
            let a = scan_case_patterns(cases@, t);
            lemma_case_patterns_extend(cases@, t);
            lemma_case_bodies_extend(module, is_init, cases@, a);
            lemma_extends_chains(t, a, scan_stmt(module, is_init, s, t));
        },
        Stmt::Try { body, handlers, orelse, finalbody } => {
            let a = scan_handler_names(handlers@, t);
            lemma_handler_names_extend(handlers@, t);
            let b = scan_stmts(module, is_init, body@, a);
            lemma_stmts_extend(module, is_init, body@, a);
            lemma_extends_chains(t, a, b);
            let c = scan_handler_bodies(module, is_init, handlers@, b);
            lemma_handler_bodies_extend(module, is_init, handlers@, b);
            lemma_extends_chains(t, b, c);
            let d = scan_stmts(module, is_init, orelse@, c);
            lemma_stmts_extend(module, is_init, orelse@, c);
            lemma_extends_chains(t, c, d);
            lemma_stmts_extend(module, is_init, finalbody@, d);
            lemma_extends_chains(t, d, scan_stmt(module, is_init, s, t));
        },
        Stmt::If { branches } => lemma_branches_extend(module, is_init, branches@, t),
        Stmt::Expr { value } => {},
        Stmt::Other => {},
    }
}

proof fn lemma_stmts_extend(module: Seq<char>, is_init: bool, ss: Seq<Stmt>, t: Table)
    requires
        t.wf(),
    ensures
        extends(t, scan_stmts(module, is_init, ss, t)),
    decreases ss,
{
    if ss.len() > 0 {
        let mid = scan_stmts(module, is_init, ss.drop_last(), t);
        lemma_stmts_extend(module, is_init, ss.drop_last(), t);
        lemma_stmt_extends(module, is_init, ss.last(), mid);
        lemma_extends_chains(t, mid, scan_stmts(module, is_init, ss, t));
    }
}

proof fn lemma_case_bodies_extend(module: Seq<char>, is_init: bool, cases: Seq<MatchCase>, t: Table)
    requires
        t.wf(),
    ensures
        extends(t, scan_case_bodies(module, is_init, cases, t)),
    decreases cases,
{
    if cases.len() > 0 {
        let mid = scan_case_bodies(module, is_init, cases.drop_last(), t);
        lemma_case_bodies_extend(module, is_init, cases.drop_last(), t);
        lemma_stmts_extend(module, is_init, cases.last().body@, mid);
        lemma_extends_chains(t, mid, scan_case_bodies(module, is_init, cases, t));
    }
}

proof fn lemma_handler_bodies_extend(
    module: Seq<char>,
    is_init: bool,
    handlers: Seq<ExceptHandler>,
    t: Table,
)
    requires
        t.wf(),
    ensures
        extends(t, scan_handler_bodies(module, is_init, handlers, t)),
    decreases handlers,
{
    if handlers.len() > 0 {
        let mid = scan_handler_bodies(module, is_init, handlers.drop_last(), t);
        lemma_handler_bodies_extend(module, is_init, handlers.drop_last(), t);
        lemma_stmts_extend(module, is_init, handlers.last().body@, mid);
        lemma_extends_chains(t, mid, scan_handler_bodies(module, is_init, handlers, t));
    }
}

proof fn lemma_branches_extend(module: Seq<char>, is_init: bool, branches: Seq<IfBranch>, t: Table)
    requires
        t.wf(),
    ensures
        extends(t, scan_branches(module, is_init, branches, t)),
    decreases branches,
{
    if branches.len() > 0 {
        let first = branches.first();
        let after = if first.verdict == Verdict::False {
            t
        } else {
            scan_stmts(module, is_init, first.body@, t)
        };
        if first.verdict != Verdict::False {
            lemma_stmts_extend(module, is_init, first.body@, t);
        }
        if first.verdict != Verdict::True {
            lemma_branches_extend(module, is_init, branches.drop_first(), after);
            lemma_extends_chains(t, after, scan_branches(module, is_init, branches, t));
        }
    }
}

/// The scan never forgets. From a well formed table, any statements lead to a well formed
/// table in which every earlier name stands in its place with the range of its first
/// binding, a style that is no weaker and a count that is no lower, and every earlier
/// wildcard import stands as it was.
pub proof fn law_scan_extends(module: Seq<char>, is_init: bool, body: Seq<Stmt>, t: Table)
    requires
        t.wf(),
    ensures
        extends(t, scan_stmts(module, is_init, body, t)),
{
    lemma_stmts_extend(module, is_init, body, t);
}

/// The table of a module is well formed: no name and no module is recorded twice, and
/// every count is at least one.
pub proof fn law_scan_is_well_formed(module: Seq<char>, is_init: bool, body: Seq<Stmt>)
    ensures
        scan_stmts(module, is_init, body, Table::empty()).wf(),
{
    lemma_stmts_extend(module, is_init, body, Table::empty());
}

} // verus!
