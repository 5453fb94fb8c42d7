//! What the scan of a module body computes, as functions from a table to a table.
//!
//! Each function takes the table as it stands before a piece of syntax and gives the table
//! after it. `scan_stmts` over the whole body, from the empty table, is the definition table
//! of the module.

use vstd::prelude::*;

use crate::ast::{
    dunder_all, is_all, Alias, ExceptHandler, Expr, Identifier, IfBranch, MatchCase, Operator,
    Pattern, Stmt, Verdict, WithItem,
};
use crate::definitions::{DefinitionStyle, ExportOp, Table};
use crate::module_name::resolve_relative;
use crate::ordered_map::{
    distinct_keys, lemma_position, lemma_upsert_keeps_keys_distinct, position, upsert,
};
use crate::text::{first_index_of, TextRange};

verus! {

/// The place of a style in the order of precedence: the lower, the stronger.
pub open spec fn rank(style: DefinitionStyle) -> int {
    match style {
        DefinitionStyle::Local => 0,
        DefinitionStyle::ImportAsEq => 1,
        DefinitionStyle::ImportAs => 2,
        DefinitionStyle::Import => 3,
        DefinitionStyle::ImportModule => 4,
    }
}

/// The stronger of two styles.
pub open spec fn stronger(a: DefinitionStyle, b: DefinitionStyle) -> DefinitionStyle {
    if rank(a) <= rank(b) {
        a
    } else {
        b
    }
}

/// The count after one more binding. It stays at the largest value a count can hold.
pub open spec fn bump(count: usize) -> usize {
    if count < usize::MAX {
        (count + 1) as usize
    } else {
        count
    }
}

/// The entries after one binding of `name`: a new entry with count 1 at the end, or the old
/// entry in its place with its range, the stronger style and one more on its count.
pub open spec fn bind(
    entries: Seq<(Seq<char>, (TextRange, DefinitionStyle, usize))>,
    name: Seq<char>,
    range: TextRange,
    style: DefinitionStyle,
) -> Seq<(Seq<char>, (TextRange, DefinitionStyle, usize))> {
    let p = position(entries, name);
    if p >= 0 {
        let was = entries[p].1;
        entries.update(p, (name, (was.0, stronger(was.1, style), bump(was.2))))
    } else {
        entries.push((name, (range, style, 1usize)))
    }
}

/// Every count is at least one.
pub open spec fn counts_positive(
    entries: Seq<(Seq<char>, (TextRange, DefinitionStyle, usize))>,
) -> bool {
    forall|i: int| 0 <= i < entries.len() ==> (#[trigger] entries[i]).1.2 >= 1
}

/// A binding keeps the names distinct and the counts positive, and leaves the name bound.
pub proof fn lemma_bind_keeps_wf(
    entries: Seq<(Seq<char>, (TextRange, DefinitionStyle, usize))>,
    name: Seq<char>,
    range: TextRange,
    style: DefinitionStyle,
)
    requires
        distinct_keys(entries),
        counts_positive(entries),
    ensures
        distinct_keys(bind(entries, name, range, style)),
        counts_positive(bind(entries, name, range, style)),
        position(bind(entries, name, range, style), name) >= 0,
{
    lemma_position(entries, name);
    let p = position(entries, name);
    let merged = if p >= 0 {
        (entries[p].1.0, stronger(entries[p].1.1, style), bump(entries[p].1.2))
    } else {
        (range, style, 1usize)
    };
    let after = bind(entries, name, range, style);
    assert(after == upsert(entries, name, merged));
    lemma_upsert_keeps_keys_distinct(entries, name, merged);
    assert forall|i: int| 0 <= i < after.len() implies (#[trigger] after[i]).1.2 >= 1 by {
        if p >= 0 {
            if i != p {
                assert(after[i] == entries[i]);
            } else {
                assert(entries[p].1.2 >= 1);
            }
        } else if i < entries.len() {
            assert(after[i] == entries[i]);
        }
    }
}

/// The wildcard imports after `from module import *` at `range`: the first star of a module
/// is the one recorded.
pub open spec fn add_wildcard(
    entries: Seq<(Seq<char>, TextRange)>,
    module: Seq<char>,
    range: TextRange,
) -> Seq<(Seq<char>, TextRange)> {
    if position(entries, module) >= 0 {
        entries
    } else {
        entries.push((module, range))
    }
}

impl Table {
    /// No name and no module is recorded twice, and every count is at least one.
    pub open spec fn wf(self) -> bool {
        &&& distinct_keys(self.definitions)
        &&& counts_positive(self.definitions)
        &&& distinct_keys(self.import_all)
    }

    pub open spec fn empty() -> Table {
        Table { definitions: Seq::empty(), import_all: Seq::empty(), dunder_all: Seq::empty() }
    }

    pub open spec fn bind(
        self,
        name: Seq<char>,
        range: TextRange,
        style: DefinitionStyle,
    ) -> Table {
        Table { definitions: bind(self.definitions, name, range, style), ..self }
    }

    pub open spec fn bind_identifier(self, name: Identifier, style: DefinitionStyle) -> Table {
        self.bind(name.id@, name.range, style)
    }

    pub open spec fn bind_optional(self, name: Option<Identifier>) -> Table {
        match name {
            Some(name) => self.bind_identifier(name, DefinitionStyle::Local),
            None => self,
        }
    }

    pub open spec fn with_log(self, log: Seq<ExportOp>) -> Table {
        Table { dunder_all: log, ..self }
    }
}

/// The operation that an element of an export list stands for: a literal text adds its
/// value, anything else stands for nothing.
pub open spec fn item_op(e: Expr) -> Option<ExportOp> {
    match e {
        Expr::StringLiteral { value, range } => Some(ExportOp::Name(range, value@)),
        _ => None,
    }
}

/// The operations of the elements of a list or tuple, in order, without the elements that
/// stand for nothing.
pub open spec fn items_ops(elts: Seq<Expr>) -> Seq<ExportOp>
    decreases elts.len(),
{
    if elts.len() == 0 {
        Seq::empty()
    } else {
        let front = items_ops(elts.drop_last());
        match item_op(elts.last()) {
            Some(op) => front.push(op),
            None => front,
        }
    }
}

/// The operations that the right-hand side of an export-list statement stands for. What is
/// neither a list, a tuple nor `name.__all__` stands for none.
pub open spec fn list_ops(e: Expr) -> Seq<ExportOp> {
    match e {
        Expr::List { elts } => items_ops(elts@),
        Expr::Tuple { elts } => items_ops(elts@),
        Expr::Attribute { value, attr } => match *value {
            Expr::Name { id, range } if attr.id@ == dunder_all() => seq![
                ExportOp::Module(range, id@),
            ],
            _ => Seq::empty(),
        },
        _ => Seq::empty(),
    }
}

/// The log after the method call `__all__.method(arg)`.
pub open spec fn method_ops(log: Seq<ExportOp>, method: Seq<char>, arg: Expr) -> Seq<ExportOp> {
    if method == "extend"@ {
        log + list_ops(arg)
    } else if method == "append"@ {
        match item_op(arg) {
            Some(op) => log.push(op),
            None => log,
        }
    } else if method == "remove"@ {
        match item_op(arg) {
            Some(ExportOp::Name(range, name)) => log.push(ExportOp::Remove(range, name)),
            _ => log,
        }
    } else {
        log
    }
}

/// The log after an expression statement: a call of a method of `__all__` with one
/// positional argument and no keyword argument acts on the log, anything else leaves it.
pub open spec fn call_ops(log: Seq<ExportOp>, e: Expr) -> Seq<ExportOp> {
    match e {
        Expr::Call { func, args, keywords } => match *func {
            Expr::Attribute { value, attr } if is_all(*value) && args@.len() == 1
                && keywords@.len() == 0 => method_ops(log, attr.id@, args@[0]),
            _ => log,
        },
        _ => log,
    }
}

/// The table after the names in binding position in an assignment target. Attribute and
/// subscript targets bind nothing.
pub open spec fn scan_target(e: Expr, t: Table) -> Table
    decreases e,
{
    match e {
        Expr::Name { id, range } => t.bind(id@, range, DefinitionStyle::Local),
        Expr::Tuple { elts } => scan_targets(elts@, t),
        Expr::List { elts } => scan_targets(elts@, t),
        Expr::Starred { value } => scan_target(*value, t),
        _ => t,
    }
}

pub open spec fn scan_targets(es: Seq<Expr>, t: Table) -> Table
    decreases es,
{
    if es.len() == 0 {
        t
    } else {
        scan_target(es.last(), scan_targets(es.drop_last(), t))
    }
}

/// The table after the names that a match pattern captures.
pub open spec fn scan_pattern(p: Pattern, t: Table) -> Table
    decreases p,
{
    match p {
        Pattern::MatchStar { name } => t.bind_optional(name),
        Pattern::MatchAs { pattern, name } => match pattern {
            Some(inner) => scan_pattern(*inner, t.bind_optional(name)),
            None => t.bind_optional(name),
        },
        Pattern::MatchMapping { patterns, rest } => scan_patterns(patterns@, t.bind_optional(rest)),
        Pattern::MatchSequence { patterns } => scan_patterns(patterns@, t),
        Pattern::MatchClass { patterns } => scan_patterns(patterns@, t),
        Pattern::MatchOr { patterns } => scan_patterns(patterns@, t),
        _ => t,
    }
}

pub open spec fn scan_patterns(ps: Seq<Pattern>, t: Table) -> Table
    decreases ps,
{
    if ps.len() == 0 {
        t
    } else {
        scan_pattern(ps.last(), scan_patterns(ps.drop_last(), t))
    }
}

/// The style of `import name as alias` and of `from m import name as alias`.
pub open spec fn alias_style(name: Seq<char>, alias: Seq<char>) -> DefinitionStyle {
    if alias == name {
        DefinitionStyle::ImportAsEq
    } else {
        DefinitionStyle::ImportAs
    }
}

/// The table after one name of `import ...`: without an alias it binds the top-level
/// package at the range of the dotted name, with an alias it binds the alias.
pub open spec fn scan_import(a: Alias, t: Table) -> Table {
    match a.asname {
        None => t.bind(
            a.name.id@.subrange(0, first_index_of(a.name.id@, '.')),
            a.name.range,
            DefinitionStyle::ImportModule,
        ),
        Some(alias) => t.bind_identifier(alias, alias_style(a.name.id@, alias.id@)),
    }
}

pub open spec fn scan_imports(names: Seq<Alias>, t: Table) -> Table
    decreases names.len(),
{
    if names.len() == 0 {
        t
    } else {
        scan_import(names.last(), scan_imports(names.drop_last(), t))
    }
}

/// The table after one name of a from-import of the module `source`; `range` is that of
/// the whole statement.
///
/// A star records the module as imported by wildcard and binds nothing. Any other name is
/// bound. `__all__ as __all__` also replaces the log by the one operation that adds what
/// `source` exports.
pub open spec fn scan_from_import(
    source: Seq<char>,
    range: TextRange,
    a: Alias,
    t: Table,
) -> Table {
    if a.name.id@ == "*"@ {
        Table { import_all: add_wildcard(t.import_all, source, a.name.range), ..t }
    } else {
        match a.asname {
            None => t.bind_identifier(a.name, DefinitionStyle::Import),
            Some(alias) => {
                let bound = t.bind_identifier(alias, alias_style(a.name.id@, alias.id@));
                if alias.id@ == a.name.id@ && a.name.id@ == dunder_all() {
                    bound.with_log(seq![ExportOp::Module(range, source)])
                } else {
                    bound
                }
            },
        }
    }
}

pub open spec fn scan_from_imports(
    source: Seq<char>,
    range: TextRange,
    names: Seq<Alias>,
    t: Table,
) -> Table
    decreases names.len(),
{
    if names.len() == 0 {
        t
    } else {
        scan_from_import(
            source,
            range,
            names.last(),
            scan_from_imports(source, range, names.drop_last(), t),
        )
    }
}

/// The characters of an optional identifier.
pub open spec fn optional_id(name: Option<Identifier>) -> Option<Seq<char>> {
    match name {
        Some(name) => Some(name.id@),
        None => None,
    }
}

/// The table after one target of `targets = value`: the target's names are bound, and the
/// target `__all__` replaces the log by the operations of `value`.
pub open spec fn scan_assign_target(target: Expr, value: Expr, t: Table) -> Table {
    let bound = scan_target(target, t);
    if is_all(target) {
        bound.with_log(list_ops(value))
    } else {
        bound
    }
}

pub open spec fn scan_assign_targets(targets: Seq<Expr>, value: Expr, t: Table) -> Table
    decreases targets.len(),
{
    if targets.len() == 0 {
        t
    } else {
        scan_assign_target(
            targets.last(),
            value,
            scan_assign_targets(targets.drop_last(), value, t),
        )
    }
}

pub open spec fn scan_with_items(items: Seq<WithItem>, t: Table) -> Table
    decreases items.len(),
{
    if items.len() == 0 {
        t
    } else {
        let front = scan_with_items(items.drop_last(), t);
        match items.last().optional_vars {
            Some(target) => scan_target(target, front),
            None => front,
        }
    }
}

pub open spec fn scan_case_patterns(cases: Seq<MatchCase>, t: Table) -> Table
    decreases cases.len(),
{
    if cases.len() == 0 {
        t
    } else {
        scan_pattern(cases.last().pattern, scan_case_patterns(cases.drop_last(), t))
    }
}

pub open spec fn scan_handler_names(handlers: Seq<ExceptHandler>, t: Table) -> Table
    decreases handlers.len(),
{
    if handlers.len() == 0 {
        t
    } else {
        scan_handler_names(handlers.drop_last(), t).bind_optional(handlers.last().name)
    }
}

/// The table after one statement of the module `module`, which is a package initializer
/// where `is_init` holds.
///
/// A class or function binds its own name and nothing of its body. A from-import whose
/// module lies above the root package is dropped whole. A compound statement binds its own
/// targets first and then scans the statements nested in it, in source order.
pub open spec fn scan_stmt(module: Seq<char>, is_init: bool, s: Stmt, t: Table) -> Table
    decreases s,
{
    match s {
        Stmt::Import { names } => scan_imports(names@, t),
        Stmt::ImportFrom { module: from, level, names, range } => match resolve_relative(
            module,
            is_init,
            level as nat,
            optional_id(from),
        ) {
            Some(source) => scan_from_imports(source, range, names@, t),
            None => t,
        },
        Stmt::ClassDef { name, body } => t.bind_identifier(name, DefinitionStyle::Local),
        Stmt::FunctionDef { name, body } => t.bind_identifier(name, DefinitionStyle::Local),
        Stmt::Assign { targets, value } => scan_assign_targets(targets@, value, t),
        Stmt::AugAssign { target, op, value } => if is_all(target) && op == Operator::Add {
            t.with_log(t.dunder_all + list_ops(value))
        } else {
            scan_target(target, t)
        },
        Stmt::AnnAssign { target } => scan_target(target, t),
        Stmt::TypeAlias { name } => scan_target(name, t),
        Stmt::For { target, body, orelse } => scan_stmts(
            module,
            is_init,
            orelse@,
            scan_stmts(module, is_init, body@, scan_target(target, t)),
        ),
        Stmt::While { body, orelse } => scan_stmts(
            module,
            is_init,
            orelse@,
            scan_stmts(module, is_init, body@, t),
        ),
        Stmt::With { items, body } => scan_stmts(
            module,
            is_init,
            body@,
            scan_with_items(items@, t),
        ),
        Stmt::Match { cases } => scan_case_bodies(
            module,
            is_init,
            cases@,
            scan_case_patterns(cases@, t),
        ),
        Stmt::Try { body, handlers, orelse, finalbody } => scan_stmts(
            module,
            is_init,
            finalbody@,
            scan_stmts(
                module,
                is_init,
                orelse@,
                scan_handler_bodies(
                    module,
                    is_init,
                    handlers@,
                    scan_stmts(module, is_init, body@, scan_handler_names(handlers@, t)),
                ),
            ),
        ),
        Stmt::If { branches } => scan_branches(module, is_init, branches@, t),
        Stmt::Expr { value } => t.with_log(call_ops(t.dunder_all, value)),
        Stmt::Other => t,
    }
}

/// The table after a sequence of statements, each scanned on the table that the ones before
/// it left.
pub open spec fn scan_stmts(module: Seq<char>, is_init: bool, ss: Seq<Stmt>, t: Table) -> Table
    decreases ss,
{
    if ss.len() == 0 {
        t
    } else {
        scan_stmt(module, is_init, ss.last(), scan_stmts(module, is_init, ss.drop_last(), t))
    }
}

pub open spec fn scan_case_bodies(
    module: Seq<char>,
    is_init: bool,
    cases: Seq<MatchCase>,
    t: Table,
) -> Table
    decreases cases,
{
    if cases.len() == 0 {
        t
    } else {
        scan_stmts(
            module,
            is_init,
            cases.last().body@,
            scan_case_bodies(module, is_init, cases.drop_last(), t),
        )
    }
}

pub open spec fn scan_handler_bodies(
    module: Seq<char>,
    is_init: bool,
    handlers: Seq<ExceptHandler>,
    t: Table,
) -> Table
    decreases handlers,
{
    if handlers.len() == 0 {
        t
    } else {
        scan_stmts(
            module,
            is_init,
            handlers.last().body@,
            scan_handler_bodies(module, is_init, handlers.drop_last(), t),
        )
    }
}

/// The table after the branches of a conditional, from the first on. A branch whose guard
/// is not known to be false is scanned; after a branch whose guard is known to be true no
/// later branch is looked at.
pub open spec fn scan_branches(
    module: Seq<char>,
    is_init: bool,
    branches: Seq<IfBranch>,
    t: Table,
) -> Table
    decreases branches,
{
    if branches.len() == 0 {
        t
    } else {
        let first = branches.first();
        let after = if first.verdict == Verdict::False {
            t
        } else {
            scan_stmts(module, is_init, first.body@, t)
        };
        if first.verdict == Verdict::True {
            after
        } else {
            scan_branches(module, is_init, branches.drop_first(), after)
        }
    }
}

} // verus!
