//! The definition table of a module and the operations that enrich it after the scan.

use starlark_map::small_map::SmallMap;
use vstd::prelude::*;

use crate::ast::{
    dunder_all, is_all, Alias, ExceptHandler, Expr, Identifier, IfBranch, MatchCase, Operator,
    Pattern, Stmt, Verdict, WithItem,
};
use crate::module_name::ModuleName;
use crate::ordered_map::{
    def_entries, defs_clone, defs_get, defs_get_index, defs_insert, defs_len, defs_new,
    lemma_position, lemma_upsert_keeps_keys_distinct, position, range_entries, ranges_clone,
    ranges_contains_key, ranges_get_index, ranges_insert, ranges_len, ranges_new,
};
use crate::scan::{
    add_wildcard, call_ops, item_op, items_ops, lemma_bind_keeps_wf, list_ops, rank,
    scan_assign_target, scan_assign_targets, scan_branches, scan_case_bodies, scan_case_patterns,
    scan_from_import, scan_from_imports, scan_handler_bodies, scan_handler_names, scan_imports,
    scan_pattern, scan_patterns, scan_stmt, scan_stmts, scan_target, scan_targets,
    scan_with_items, stronger,
};
use crate::text::{starts_with_char, str_equals, TextRange};

verus! {

/// How a name came to be bound at module scope, from the strongest claim that the name
/// belongs to the module to the weakest.
#[derive(Clone, Copy, Debug, PartialEq, Eq, Hash, PartialOrd, Ord, Structural)]
pub enum DefinitionStyle {
    /// Assigned or defined in the module itself: `x = 1`, `def x(): ...`.
    Local,
    /// Imported under an alias that repeats the name: `from x import y as y`.
    ImportAsEq,
    /// Imported under another name: `from x import y as z`.
    ImportAs,
    /// Imported from another module without an alias: `from x import y`.
    Import,
    /// Bound by a plain `import x` or `import x.y`, both of which bind `x`.
    ImportModule,
}

impl DefinitionStyle {
    /// The place of the style in the order of precedence: the lower, the stronger.
    pub fn rank(self) -> (r: u8)
        ensures
            r == rank(self),
    {
        match self {
            DefinitionStyle::Local => 0,
            DefinitionStyle::ImportAsEq => 1,
            DefinitionStyle::ImportAs => 2,
            DefinitionStyle::Import => 3,
            DefinitionStyle::ImportModule => 4,
        }
    }

    /// The stronger of two styles.
    pub fn stronger(self, other: DefinitionStyle) -> (r: DefinitionStyle)
        ensures
            r == stronger(self, other),
    {
        if self.rank() <= other.rank() {
            self
        } else {
            other
        }
    }
}

/// Whether a module is a program's source or an interface that describes a library.
#[derive(Clone, Copy, Debug, PartialEq, Eq, Hash, Structural)]
pub enum ModuleStyle {
    /// A source file that runs: it exports what it imports by wildcard and every public
    /// name.
    Executable,
    /// An interface file: it exports the public names that it defines itself or imports
    /// under their own name.
    Interface,
}

/// One operation on the export list, as the module's source performs it.
#[derive(Clone, Debug, PartialEq, Eq, Hash)]
pub enum DunderAllEntry {
    /// Add a name.
    Name(TextRange, String),
    /// Add whatever another module exports.
    Module(TextRange, ModuleName),
    /// Remove a name, which may have come in through a `Module`.
    Remove(TextRange, String),
}

/// An operation on the export list, over the characters of its name.
pub enum ExportOp {
    Name(TextRange, Seq<char>),
    Module(TextRange, Seq<char>),
    Remove(TextRange, Seq<char>),
}

impl View for DunderAllEntry {
    type V = ExportOp;

    open spec fn view(&self) -> ExportOp {
        match self {
            DunderAllEntry::Name(range, name) => ExportOp::Name(*range, name@),
            DunderAllEntry::Module(range, module) => ExportOp::Module(*range, module@),
            DunderAllEntry::Remove(range, name) => ExportOp::Remove(*range, name@),
        }
    }
}

/// What a definition table holds.
#[verifier::ext_equal]
pub struct Table {
    /// Each name bound at module scope, in the order of first binding, with a range where it
    /// is bound, the strongest style it was bound with, and the number of its bindings.
    pub definitions: Seq<(Seq<char>, (TextRange, DefinitionStyle, usize))>,
    /// Each module imported by `from m import *`, in the order of first import, with the
    /// range of the first star.
    pub import_all: Seq<(Seq<char>, TextRange)>,
    /// The operations on the export list, in source order.
    pub dunder_all: Seq<ExportOp>,
}

/// The operations that a log holds.
pub open spec fn log_view(log: Seq<DunderAllEntry>) -> Seq<ExportOp> {
    log.map_values(|e: DunderAllEntry| e@)
}

impl DunderAllEntry {
    /// Whether an expression is the bare name `__all__`.
    pub fn is_all(x: &Expr) -> (r: bool)
        ensures
            r == is_all(*x),
    {
        match x {
            Expr::Name { id, .. } => str_equals(id.as_str(), "__all__"),
            _ => false,
        }
    }

    /// The operations that the right-hand side of an export-list statement stands for.
    pub fn as_list(x: &Expr) -> (r: Vec<DunderAllEntry>)
        ensures
            log_view(r@) == list_ops(*x),
    {
        match x {
            Expr::List { elts } => DunderAllEntry::as_items(elts),
            Expr::Tuple { elts } => DunderAllEntry::as_items(elts),
            Expr::Attribute { value, attr } => {
                let mut r: Vec<DunderAllEntry> = Vec::new();
                match &**value {
                    Expr::Name { id, range } => {
                        if str_equals(attr.id.as_str(), "__all__") {
                            r.push(DunderAllEntry::Module(*range, ModuleName::from_name(id)));
                        }
                    },
                    _ => {},
                }
                assert(log_view(r@) =~= list_ops(*x));
                r
            },
            _ => Vec::new(),
        }
    }

    /// The operation that an element of an export list stands for.
    pub fn as_item(x: &Expr) -> (r: Option<DunderAllEntry>)
        ensures
            match r {
                Some(entry) => item_op(*x) == Some(entry@),
                None => item_op(*x).is_none(),
            },
    {
        match x {
            Expr::StringLiteral { value, range } => Some(
                DunderAllEntry::Name(*range, value.clone()),
            ),
            _ => None,
        }
    }

    fn as_items(elts: &Vec<Expr>) -> (r: Vec<DunderAllEntry>)
        ensures
            log_view(r@) == items_ops(elts@),
    {
        let mut r: Vec<DunderAllEntry> = Vec::new();
        let n = elts.len();
        let mut i: usize = 0;
        assert(log_view(r@) =~= items_ops(elts@.take(0)));
        while i < n
            invariant
                n == elts@.len(),
                i <= n,
                log_view(r@) == items_ops(elts@.take(i as int)),
            decreases n - i,
        {
            proof {
                lemma_take_step(elts@, i as int);
            }
            let ghost before = r@;
            match DunderAllEntry::as_item(&elts[i]) {
                Some(entry) => {
                    r.push(entry);
                    assert(log_view(r@) =~= log_view(before).push(entry@));
                },
                None => {},
            }
            i += 1;
        }
        assert(elts@.take(n as int) =~= elts@);
        r
    }
}

/// The steps by which a loop over a sequence reaches the whole of it.
pub proof fn lemma_take_step<T>(s: Seq<T>, i: int)
    requires
        0 <= i < s.len(),
    ensures
        s.take(i + 1).len() == i + 1,
        s.take(i + 1).drop_last() == s.take(i),
        s.take(i + 1).last() == s[i],
{
    assert(s.take(i + 1).drop_last() =~= s.take(i));
}

/// The names defined at module scope, the wildcard imports and the export log of a module.
#[derive(Debug)]
pub struct Definitions {
    definitions: SmallMap<String, (TextRange, DefinitionStyle, usize)>,
    import_all: SmallMap<String, TextRange>,
    dunder_all: Vec<DunderAllEntry>,
}

impl View for Definitions {
    type V = Table;

    closed spec fn view(&self) -> Table {
        Table {
            definitions: def_entries(self.definitions),
            import_all: range_entries(self.import_all),
            dunder_all: log_view(self.dunder_all@),
        }
    }
}

/// Whether a name is public: it does not begin with an underscore.
pub open spec fn is_public(name: Seq<char>) -> bool {
    !(name.len() > 0 && name[0] == '_')
}

/// Whether a module of the given style exports a name by default.
pub open spec fn exported_by_default(
    style: ModuleStyle,
    name: Seq<char>,
    how: DefinitionStyle,
) -> bool {
    is_public(name) && (style == ModuleStyle::Executable || how == DefinitionStyle::Local || how
        == DefinitionStyle::ImportAsEq)
}

/// One operation for each wildcard import, in order: add what that module exports.
pub open spec fn wildcard_ops(imports: Seq<(Seq<char>, TextRange)>) -> Seq<ExportOp> {
    imports.map_values(|e: (Seq<char>, TextRange)| ExportOp::Module(e.1, e.0))
}

/// One operation for each definition that is exported by default, in order: add its name.
pub open spec fn default_names(
    style: ModuleStyle,
    entries: Seq<(Seq<char>, (TextRange, DefinitionStyle, usize))>,
) -> Seq<ExportOp>
    decreases entries.len(),
{
    if entries.len() == 0 {
        Seq::empty()
    } else {
        let front = default_names(style, entries.drop_last());
        let (name, (range, how, _)) = entries.last();
        if exported_by_default(style, name, how) {
            front.push(ExportOp::Name(range, name))
        } else {
            front
        }
    }
}

/// The export list of a module that writes none: for an executable module the wildcard
/// imports and then every public name, for an interface the public names that are local or
/// imported under their own name.
pub open spec fn default_exports(style: ModuleStyle, t: Table) -> Seq<ExportOp> {
    if style == ModuleStyle::Executable {
        wildcard_ops(t.import_all) + default_names(style, t.definitions)
    } else {
        default_names(style, t.definitions)
    }
}

impl Clone for Definitions {
    /// A table that holds the same.
    fn clone(&self) -> (r: Definitions)
        ensures
            r@ == self@,
    {
        let mut dunder_all: Vec<DunderAllEntry> = Vec::new();
        let n = self.dunder_all.len();
        let mut i: usize = 0;
        while i < n
            invariant
                n == self.dunder_all@.len(),
                i <= n,
                log_view(dunder_all@) == log_view(self.dunder_all@.take(i as int)),
            decreases n - i,
        {
            let ghost before = dunder_all@;
            let entry = match &self.dunder_all[i] {
                DunderAllEntry::Name(range, name) => DunderAllEntry::Name(*range, name.clone()),
                DunderAllEntry::Module(range, module) => DunderAllEntry::Module(
                    *range,
                    ModuleName::from_str(module.as_str()),
                ),
                DunderAllEntry::Remove(range, name) => DunderAllEntry::Remove(*range, name.clone()),
            };
            dunder_all.push(entry);
            assert(log_view(dunder_all@) =~= log_view(before).push(self.dunder_all@[i as int]@));
            assert(log_view(self.dunder_all@.take(i + 1)) =~= log_view(
                self.dunder_all@.take(i as int),
            ).push(self.dunder_all@[i as int]@));
            i += 1;
        }
        assert(self.dunder_all@.take(n as int) =~= self.dunder_all@);
        Definitions {
            definitions: defs_clone(&self.definitions),
            import_all: ranges_clone(&self.import_all),
            dunder_all,
        }
    }
}

impl Default for Definitions {
    /// The table of a module without statements.
    fn default() -> (r: Definitions)
        ensures
            r.wf(),
            r@ == Table::empty(),
    {
        let r = Definitions {
            definitions: defs_new(),
            import_all: ranges_new(),
            dunder_all: Vec::new(),
        };
        assert(r@ =~= Table::empty());
        r
    }
}

impl Definitions {
    /// What the table holds is well formed: see `Table::wf`.
    pub open spec fn wf(&self) -> bool {
        self@.wf()
    }

    /// Scans the body `x` of the module `module_name`, which is a package initializer
    /// where `is_init` holds.
    pub fn new(x: &[Stmt], module_name: ModuleName, is_init: bool) -> (r: Definitions)
        ensures
            r.wf(),
            r@ == scan_stmts(module_name@, is_init, x@, Table::empty()),
    {
        let mut builder = DefinitionsBuilder {
            module_name,
            is_init,
            inner: Definitions::default(),
        };
        let n = x.len();
        let mut i: usize = 0;
        assert(x@.take(0) =~= Seq::<Stmt>::empty());
        while i < n
            invariant
                n == x@.len(),
                i <= n,
                builder.inner.wf(),
                builder.module_name == module_name,
                builder.is_init == is_init,
                builder.inner@ == scan_stmts(
                    module_name@,
                    is_init,
                    x@.take(i as int),
                    Table::empty(),
                ),
            decreases n - i,
        {
            proof {
                lemma_take_step(x@, i as int);
            }
            builder.stmt(&x[i]);
            i += 1;
        }
        assert(x@.take(n as int) =~= x@);
        builder.inner
    }

    /// The definitions, keyed by name in the order of first binding.
    pub fn definitions(&self) -> (r: &SmallMap<String, (TextRange, DefinitionStyle, usize)>)
        ensures
            def_entries(*r) == self@.definitions,
    {
        &self.definitions
    }

    /// The wildcard imports, keyed by module name in the order of first import.
    pub fn import_all(&self) -> (r: &SmallMap<String, TextRange>)
        ensures
            range_entries(*r) == self@.import_all,
    {
        &self.import_all
    }

    /// The export log.
    pub fn dunder_all(&self) -> (r: &Vec<DunderAllEntry>)
        ensures
            log_view(r@) == self@.dunder_all,
    {
        &self.dunder_all
    }

    /// Adds the implicit `from builtins import *`, unless the module imports from `builtins`
    /// by wildcard itself.
    pub fn inject_builtins(&mut self)
        requires
            old(self).wf(),
        ensures
            final(self).wf(),
            final(self)@ == (Table {
                import_all: add_wildcard(
                    old(self)@.import_all,
                    "builtins"@,
                    TextRange { start: 0, end: 0 },
                ),
                ..old(self)@
            }),
    {
        let builtins = ModuleName::builtins();
        if !ranges_contains_key(&self.import_all, builtins.as_str()) {
            proof {
                lemma_upsert_keeps_keys_distinct(
                    range_entries(self.import_all),
                    builtins@,
                    TextRange { start: 0, end: 0 },
                );
            }
            ranges_insert(
                &mut self.import_all,
                String::from_str(builtins.as_str()),
                TextRange::default(),
            );
        }
    }

    /// Gives the module its default export list: the operations of `default_exports` become
    /// the log. Nothing changes where the module has an export list of its own, that is
    /// where it binds `__all__` or where the log already holds an operation.
    pub fn ensure_dunder_all(&mut self, style: ModuleStyle)
        requires
            old(self).wf(),
        ensures
            final(self).wf(),
            final(self)@ == (if position(old(self)@.definitions, dunder_all()) >= 0
                || old(self)@.dunder_all.len() > 0 {
                old(self)@
            } else {
                old(self)@.with_log(default_exports(style, old(self)@))
            }),
    {
        if defs_get(&self.definitions, "__all__").is_some() || self.dunder_all.len() > 0 {
            return ;
        }
        let ghost imports = range_entries(self.import_all);
        let ghost entries = def_entries(self.definitions);
        if style == ModuleStyle::Executable {
            let n = ranges_len(&self.import_all);
            let mut i: usize = 0;
            assert(log_view(self.dunder_all@) =~= wildcard_ops(imports.take(0)));
            while i < n
                invariant
                    n == imports.len(),
                    i <= n,
                    imports == range_entries(self.import_all),
                    entries == def_entries(self.definitions),
                    log_view(self.dunder_all@) == wildcard_ops(imports.take(i as int)),
                decreases n - i,
            {
                let ghost before = self.dunder_all@;
                match ranges_get_index(&self.import_all, i) {
                    Some((module, range)) => {
                        self.dunder_all.push(
                            DunderAllEntry::Module(*range, ModuleName::from_name(module)),
                        );
                    },
                    None => {},
                }
                assert(log_view(self.dunder_all@) =~= log_view(before).push(
                    ExportOp::Module(imports[i as int].1, imports[i as int].0),
                ));
                assert(wildcard_ops(imports.take(i + 1)) =~= wildcard_ops(
                    imports.take(i as int),
                ).push(ExportOp::Module(imports[i as int].1, imports[i as int].0)));
                i += 1;
            }
            assert(imports.take(n as int) =~= imports);
        }
        let ghost base = log_view(self.dunder_all@);
        let n = defs_len(&self.definitions);
        let mut i: usize = 0;
        assert(log_view(self.dunder_all@) =~= base + default_names(style, entries.take(0)));
        while i < n
            invariant
                n == entries.len(),
                i <= n,
                imports == range_entries(self.import_all),
                entries == def_entries(self.definitions),
                log_view(self.dunder_all@) == base + default_names(style, entries.take(i as int)),
            decreases n - i,
        {
            proof {
                lemma_take_step(entries, i as int);
            }
            let ghost before = self.dunder_all@;
            match defs_get_index(&self.definitions, i) {
                Some((name, entry)) => {
                    if !starts_with_char(name.as_str(), '_') && (style == ModuleStyle::Executable
                        || entry.1 == DefinitionStyle::Local || entry.1
                        == DefinitionStyle::ImportAsEq) {
                        self.dunder_all.push(DunderAllEntry::Name(entry.0, name.clone()));
                        assert(log_view(self.dunder_all@) =~= log_view(before).push(
                            ExportOp::Name(entries[i as int].1.0, entries[i as int].0),
                        ));
                    }
                },
                None => {},
            }
            assert(log_view(self.dunder_all@) =~= base + default_names(
                style,
                entries.take(i + 1),
            ));
            i += 1;
        }
        assert(entries.take(n as int) =~= entries);
        assert(log_view(self.dunder_all@) =~= default_exports(style, old(self)@));
    }
}

/// The scan in progress: the module being scanned and the table so far.
struct DefinitionsBuilder {
    module_name: ModuleName,
    is_init: bool,
    inner: Definitions,
}

impl DefinitionsBuilder {
    /// The table is well formed, and the scan is still that of the same module.
    spec fn follows(&self, before: &DefinitionsBuilder) -> bool {
        &&& self.inner.wf()
        &&& self.module_name == before.module_name
        &&& self.is_init == before.is_init
    }

    fn stmts(&mut self, x: &Vec<Stmt>)
        requires
            old(self).inner.wf(),
        ensures
            final(self).follows(old(self)),
            final(self).inner@ == scan_stmts(
                old(self).module_name@,
                old(self).is_init,
                x@,
                old(self).inner@,
            ),
        decreases x,
    {
        let n = x.len();
        let mut i: usize = 0;
        assert(x@.take(0) =~= Seq::<Stmt>::empty());
        while i < n
            invariant
                n == x@.len(),
                i <= n,
                self.follows(old(self)),
                self.inner@ == scan_stmts(
                    old(self).module_name@,
                    old(self).is_init,
                    x@.take(i as int),
                    old(self).inner@,
                ),
            decreases n - i,
        {
            proof {
                lemma_take_step(x@, i as int);
            }
            self.stmt(&x[i]);
            i += 1;
        }
        assert(x@.take(n as int) =~= x@);
    }

    /// Records one binding of a name.
    fn add_name(&mut self, x: &String, range: TextRange, style: DefinitionStyle)
        requires
            old(self).inner.wf(),
        ensures
            final(self).follows(old(self)),
            final(self).inner@ == old(self).inner@.bind(x@, range, style),
    {
        let ghost entries = def_entries(self.inner.definitions);
        let merged = match defs_get(&self.inner.definitions, x.as_str()) {
            Some(was) => {
                let count = if was.2 < usize::MAX {
                    was.2 + 1
                } else {
                    was.2
                };
                (was.0, was.1.stronger(style), count)
            },
            None => (range, style, 1),
        };
        proof {
            lemma_position(entries, x@);
            lemma_bind_keeps_wf(entries, x@, range, style);
        }
        defs_insert(&mut self.inner.definitions, x.clone(), merged);
        assert(self.inner@ =~= old(self).inner@.bind(x@, range, style));
    }

    fn add_identifier(&mut self, x: &Identifier, style: DefinitionStyle)
        requires
            old(self).inner.wf(),
        ensures
            final(self).follows(old(self)),
            final(self).inner@ == old(self).inner@.bind_identifier(*x, style),
    {
        self.add_name(&x.id, x.range, style);
    }

    fn add_optional(&mut self, x: &Option<Identifier>)
        requires
            old(self).inner.wf(),
        ensures
            final(self).follows(old(self)),
            final(self).inner@ == old(self).inner@.bind_optional(*x),
    {
        match x {
            Some(name) => self.add_identifier(name, DefinitionStyle::Local),
            None => {},
        }
    }

    /// Records the names in binding position in an assignment target.
    fn expr_lvalue(&mut self, x: &Expr)
        requires
            old(self).inner.wf(),
        ensures
            final(self).follows(old(self)),
            final(self).inner@ == scan_target(*x, old(self).inner@),
        decreases x,
    {
        match x {
            Expr::Name { id, range } => self.add_name(id, *range, DefinitionStyle::Local),
            Expr::Tuple { elts } => self.expr_lvalues(elts),
            Expr::List { elts } => self.expr_lvalues(elts),
            Expr::Starred { value } => self.expr_lvalue(value),
            _ => {},
        }
    }

    fn expr_lvalues(&mut self, x: &Vec<Expr>)
        requires
            old(self).inner.wf(),
        ensures
            final(self).follows(old(self)),
            final(self).inner@ == scan_targets(x@, old(self).inner@),
        decreases x,
    {
        let n = x.len();
        let mut i: usize = 0;
        assert(x@.take(0) =~= Seq::<Expr>::empty());
        while i < n
            invariant
                n == x@.len(),
                i <= n,
                self.follows(old(self)),
                self.inner@ == scan_targets(x@.take(i as int), old(self).inner@),
            decreases n - i,
        {
            proof {
                lemma_take_step(x@, i as int);
            }
            self.expr_lvalue(&x[i]);
            i += 1;
        }
        assert(x@.take(n as int) =~= x@);
    }

    /// Records the names that a match pattern captures.
    fn pattern(&mut self, x: &Pattern)
        requires
            old(self).inner.wf(),
        ensures
            final(self).follows(old(self)),
            final(self).inner@ == scan_pattern(*x, old(self).inner@),
        decreases x,
    {
        match x {
            Pattern::MatchStar { name } => self.add_optional(name),
            Pattern::MatchAs { pattern, name } => {
                self.add_optional(name);
                match pattern {
                    Some(inner) => self.pattern(inner),
                    None => {},
                }
            },
            Pattern::MatchMapping { patterns, rest } => {
                self.add_optional(rest);
                self.patterns(patterns);
            },
            Pattern::MatchSequence { patterns } => self.patterns(patterns),
            Pattern::MatchClass { patterns } => self.patterns(patterns),
            Pattern::MatchOr { patterns } => self.patterns(patterns),
            _ => {},
        }
    }

    fn patterns(&mut self, x: &Vec<Pattern>)
        requires
            old(self).inner.wf(),
        ensures
            final(self).follows(old(self)),
            final(self).inner@ == scan_patterns(x@, old(self).inner@),
        decreases x,
    {
        let n = x.len();
        let mut i: usize = 0;
        assert(x@.take(0) =~= Seq::<Pattern>::empty());
        while i < n
            invariant
                n == x@.len(),
                i <= n,
                self.follows(old(self)),
                self.inner@ == scan_patterns(x@.take(i as int), old(self).inner@),
            decreases n - i,
        {
            proof {
                lemma_take_step(x@, i as int);
            }
            self.pattern(&x[i]);
            i += 1;
        }
        assert(x@.take(n as int) =~= x@);
    }

    fn stmt(&mut self, x: &Stmt)
        requires
            old(self).inner.wf(),
        ensures
            final(self).follows(old(self)),
            final(self).inner@ == scan_stmt(
                old(self).module_name@,
                old(self).is_init,
                *x,
                old(self).inner@,
            ),
        decreases x,
    {
        match x {
            Stmt::ClassDef { name, .. } => self.add_identifier(name, DefinitionStyle::Local),
            Stmt::FunctionDef { name, .. } => self.add_identifier(name, DefinitionStyle::Local),
            Stmt::AnnAssign { target } => self.expr_lvalue(target),
            Stmt::TypeAlias { name } => self.expr_lvalue(name),
            Stmt::For { target, body, orelse } => {
                self.expr_lvalue(target);
                self.stmts(body);
                self.stmts(orelse);
            },
            Stmt::While { body, orelse } => {
                self.stmts(body);
                self.stmts(orelse);
            },
            Stmt::Import { names } => self.imports(names),
            Stmt::ImportFrom { module, level, names, range } => {
                let source = match module {
                    Some(base) => self.module_name.new_maybe_relative(
                        self.is_init,
                        *level,
                        Some(&base.id),
                    ),
                    None => self.module_name.new_maybe_relative(self.is_init, *level, None),
                };
                match source {
                    Some(source) => self.from_imports(&source, *range, names),
                    None => {},
                }
            },
            Stmt::Assign { targets, value } => self.assign_targets(targets, value),
            Stmt::AugAssign { target, op, value } => {
                if DunderAllEntry::is_all(target) && *op == Operator::Add {
                    let mut more = DunderAllEntry::as_list(value);
                    self.inner.dunder_all.append(&mut more);
                    assert(self.inner@ =~= old(self).inner@.with_log(
                        old(self).inner@.dunder_all + list_ops(*value),
                    ));
                } else {
                    self.expr_lvalue(target);
                }
            },
            Stmt::With { items, body } => {
                self.with_items(items);
                self.stmts(body);
            },
            Stmt::Match { cases } => {
                self.case_patterns(cases);
                self.case_bodies(cases);
            },
            Stmt::Try { body, handlers, orelse, finalbody } => {
                self.handler_names(handlers);
                self.stmts(body);
                self.handler_bodies(handlers);
                self.stmts(orelse);
                self.stmts(finalbody);
            },
            Stmt::If { branches } => self.branches(branches),
            Stmt::Expr { value } => self.export_call(value),
            Stmt::Other => {},
        }
    }

    fn imports(&mut self, names: &Vec<Alias>)
        requires
            old(self).inner.wf(),
        ensures
            final(self).follows(old(self)),
            final(self).inner@ == scan_imports(names@, old(self).inner@),
    {
        let n = names.len();
        let mut i: usize = 0;
        assert(names@.take(0) =~= Seq::<Alias>::empty());
        while i < n
            invariant
                n == names@.len(),
                i <= n,
                self.follows(old(self)),
                self.inner@ == scan_imports(names@.take(i as int), old(self).inner@),
            decreases n - i,
        {
            proof {
                lemma_take_step(names@, i as int);
            }
            let a = &names[i];
            match &a.asname {
                None => {
                    let package = ModuleName::from_name(&a.name.id).first_component();
                    self.add_name(&package, a.name.range, DefinitionStyle::ImportModule);
                },
                Some(alias) => {
                    let style = if alias.id == a.name.id {
                        DefinitionStyle::ImportAsEq
                    } else {
                        DefinitionStyle::ImportAs
                    };
                    self.add_identifier(alias, style);
                },
            }
            i += 1;
        }
        assert(names@.take(n as int) =~= names@);
    }

    /// Records one name of a from-import of the module `source`.
    fn from_import(&mut self, source: &ModuleName, range: TextRange, a: &Alias)
        requires
            old(self).inner.wf(),
        ensures
            final(self).follows(old(self)),
            final(self).inner@ == scan_from_import(source@, range, *a, old(self).inner@),
    {
        if str_equals(a.name.id.as_str(), "*") {
            if !ranges_contains_key(&self.inner.import_all, source.as_str()) {
                proof {
                    lemma_upsert_keeps_keys_distinct(
                        range_entries(self.inner.import_all),
                        source@,
                        a.name.range,
                    );
                }
                ranges_insert(
                    &mut self.inner.import_all,
                    String::from_str(source.as_str()),
                    a.name.range,
                );
            }
            assert(self.inner@ =~= scan_from_import(source@, range, *a, old(self).inner@));
        } else {
            match &a.asname {
                None => self.add_identifier(&a.name, DefinitionStyle::Import),
                Some(alias) => {
                    let same = alias.id == a.name.id;
                    let style = if same {
                        DefinitionStyle::ImportAsEq
                    } else {
                        DefinitionStyle::ImportAs
                    };
                    self.add_identifier(alias, style);
                    if same && str_equals(a.name.id.as_str(), "__all__") {
                        let mut log: Vec<DunderAllEntry> = Vec::new();
                        log.push(
                            DunderAllEntry::Module(range, ModuleName::from_str(source.as_str())),
                        );
                        self.inner.dunder_all = log;
                        assert(self.inner@ =~= scan_from_import(
                            source@,
                            range,
                            *a,
                            old(self).inner@,
                        ));
                    }
                },
            }
        }
    }

    fn from_imports(&mut self, source: &ModuleName, range: TextRange, names: &Vec<Alias>)
        requires
            old(self).inner.wf(),
        ensures
            final(self).follows(old(self)),
            final(self).inner@ == scan_from_imports(source@, range, names@, old(self).inner@),
    {
        let n = names.len();
        let mut i: usize = 0;
        assert(names@.take(0) =~= Seq::<Alias>::empty());
        while i < n
            invariant
                n == names@.len(),
                i <= n,
                self.follows(old(self)),
                self.inner@ == scan_from_imports(
                    source@,
                    range,
                    names@.take(i as int),
                    old(self).inner@,
                ),
            decreases n - i,
        {
            proof {
                lemma_take_step(names@, i as int);
            }
            self.from_import(source, range, &names[i]);
            i += 1;
        }
        assert(names@.take(n as int) =~= names@);
    }

    fn assign_targets(&mut self, targets: &Vec<Expr>, value: &Expr)
        requires
            old(self).inner.wf(),
        ensures
            final(self).follows(old(self)),
            final(self).inner@ == scan_assign_targets(targets@, *value, old(self).inner@),
    {
        let n = targets.len();
        let mut i: usize = 0;
        assert(targets@.take(0) =~= Seq::<Expr>::empty());
        while i < n
            invariant
                n == targets@.len(),
                i <= n,
                self.follows(old(self)),
                self.inner@ == scan_assign_targets(
                    targets@.take(i as int),
                    *value,
                    old(self).inner@,
                ),
            decreases n - i,
        {
            proof {
                lemma_take_step(targets@, i as int);
            }
            let ghost before = self.inner@;
            self.expr_lvalue(&targets[i]);
            if DunderAllEntry::is_all(&targets[i]) {
                self.inner.dunder_all = DunderAllEntry::as_list(value);
            }
            assert(self.inner@ =~= scan_assign_target(targets@[i as int], *value, before));
            i += 1;
        }
        assert(targets@.take(n as int) =~= targets@);
    }

    fn with_items(&mut self, items: &Vec<WithItem>)
        requires
            old(self).inner.wf(),
        ensures
            final(self).follows(old(self)),
            final(self).inner@ == scan_with_items(items@, old(self).inner@),
    {
        let n = items.len();
        let mut i: usize = 0;
        assert(items@.take(0) =~= Seq::<WithItem>::empty());
        while i < n
            invariant
                n == items@.len(),
                i <= n,
                self.follows(old(self)),
                self.inner@ == scan_with_items(items@.take(i as int), old(self).inner@),
            decreases n - i,
        {
            proof {
                lemma_take_step(items@, i as int);
            }
            match &items[i].optional_vars {
                Some(target) => self.expr_lvalue(target),
                None => {},
            }
            i += 1;
        }
        assert(items@.take(n as int) =~= items@);
    }

    fn case_patterns(&mut self, cases: &Vec<MatchCase>)
        requires
            old(self).inner.wf(),
        ensures
            final(self).follows(old(self)),
            final(self).inner@ == scan_case_patterns(cases@, old(self).inner@),
    {
        let n = cases.len();
        let mut i: usize = 0;
        assert(cases@.take(0) =~= Seq::<MatchCase>::empty());
        while i < n
            invariant
                n == cases@.len(),
                i <= n,
                self.follows(old(self)),
                self.inner@ == scan_case_patterns(cases@.take(i as int), old(self).inner@),
            decreases n - i,
        {
            proof {
                lemma_take_step(cases@, i as int);
            }
            self.pattern(&cases[i].pattern);
            i += 1;
        }
        assert(cases@.take(n as int) =~= cases@);
    }

    fn case_bodies(&mut self, cases: &Vec<MatchCase>)
        requires
            old(self).inner.wf(),
        ensures
            final(self).follows(old(self)),
            final(self).inner@ == scan_case_bodies(
                old(self).module_name@,
                old(self).is_init,
                cases@,
                old(self).inner@,
            ),
        decreases cases,
    {
        let n = cases.len();
        let mut i: usize = 0;
        assert(cases@.take(0) =~= Seq::<MatchCase>::empty());
        while i < n
            invariant
                n == cases@.len(),
                i <= n,
                self.follows(old(self)),
                self.inner@ == scan_case_bodies(
                    old(self).module_name@,
                    old(self).is_init,
                    cases@.take(i as int),
                    old(self).inner@,
                ),
            decreases n - i,
        {
            proof {
                lemma_take_step(cases@, i as int);
            }
            self.stmts(&cases[i].body);
            i += 1;
        }
        assert(cases@.take(n as int) =~= cases@);
    }

    fn handler_names(&mut self, handlers: &Vec<ExceptHandler>)
        requires
            old(self).inner.wf(),
        ensures
            final(self).follows(old(self)),
            final(self).inner@ == scan_handler_names(handlers@, old(self).inner@),
    {
        let n = handlers.len();
        let mut i: usize = 0;
        assert(handlers@.take(0) =~= Seq::<ExceptHandler>::empty());
        while i < n
            invariant
                n == handlers@.len(),
                i <= n,
                self.follows(old(self)),
                self.inner@ == scan_handler_names(handlers@.take(i as int), old(self).inner@),
            decreases n - i,
        {
            proof {
                lemma_take_step(handlers@, i as int);
            }
            self.add_optional(&handlers[i].name);
            i += 1;
        }
        assert(handlers@.take(n as int) =~= handlers@);
    }

    fn handler_bodies(&mut self, handlers: &Vec<ExceptHandler>)
        requires
            old(self).inner.wf(),
        ensures
            final(self).follows(old(self)),
            final(self).inner@ == scan_handler_bodies(
                old(self).module_name@,
                old(self).is_init,
                handlers@,
                old(self).inner@,
            ),
        decreases handlers,
    {
        let n = handlers.len();
        let mut i: usize = 0;
        assert(handlers@.take(0) =~= Seq::<ExceptHandler>::empty());
        while i < n
            invariant
                n == handlers@.len(),
                i <= n,
                self.follows(old(self)),
                self.inner@ == scan_handler_bodies(
                    old(self).module_name@,
                    old(self).is_init,
                    handlers@.take(i as int),
                    old(self).inner@,
                ),
            decreases n - i,
        {
            proof {
                lemma_take_step(handlers@, i as int);
            }
            self.stmts(&handlers[i].body);
            i += 1;
        }
        assert(handlers@.take(n as int) =~= handlers@);
    }

    /// Scans the branches of a conditional that its guards let through.
    fn branches(&mut self, branches: &Vec<IfBranch>)
        requires
            old(self).inner.wf(),
        ensures
            final(self).follows(old(self)),
            final(self).inner@ == scan_branches(
                old(self).module_name@,
                old(self).is_init,
                branches@,
                old(self).inner@,
            ),
        decreases branches,
    {
        let n = branches.len();
        let mut i: usize = 0;
        let ghost whole = scan_branches(
            old(self).module_name@,
            old(self).is_init,
            branches@,
            old(self).inner@,
        );
        assert(branches@.skip(0) =~= branches@);
        while i < n
            invariant
                n == branches@.len(),
                i <= n,
                self.follows(old(self)),
                whole == scan_branches(
                    old(self).module_name@,
                    old(self).is_init,
                    branches@,
                    old(self).inner@,
                ),
                whole == scan_branches(
                    old(self).module_name@,
                    old(self).is_init,
                    branches@.skip(i as int),
                    self.inner@,
                ),
            decreases n - i,
        {
            assert(branches@.skip(i as int).drop_first() =~= branches@.skip(i + 1));
            let branch = &branches[i];
            if branch.verdict != Verdict::False {
                self.stmts(&branch.body);
            }
            if branch.verdict == Verdict::True {
                return ;
            }
            i += 1;
        }
    }

    /// Applies an expression statement to the export log.
    fn export_call(&mut self, x: &Expr)
        requires
            old(self).inner.wf(),
        ensures
            final(self).follows(old(self)),
            final(self).inner@ == old(self).inner@.with_log(
                call_ops(old(self).inner@.dunder_all, *x),
            ),
    {
        let ghost before = self.inner@;
        match x {
            Expr::Call { func, args, keywords } => match &**func {
                Expr::Attribute { value, attr } => {
                    if DunderAllEntry::is_all(value) && args.len() == 1 && keywords.len() == 0 {
                        let arg = &args[0];
                        if str_equals(attr.id.as_str(), "extend") {
                            let mut more = DunderAllEntry::as_list(arg);
                            self.inner.dunder_all.append(&mut more);
                        } else if str_equals(attr.id.as_str(), "append") {
                            match DunderAllEntry::as_item(arg) {
                                Some(entry) => self.inner.dunder_all.push(entry),
                                None => {},
                            }
                        } else if str_equals(attr.id.as_str(), "remove") {
                            match DunderAllEntry::as_item(arg) {
                                Some(DunderAllEntry::Name(range, name)) => {
                                    self.inner.dunder_all.push(DunderAllEntry::Remove(range, name));
                                },
                                _ => {},
                            }
                        }
                    }
                },
                _ => {},
            },
            _ => {},
        }
        assert(self.inner@ =~= before.with_log(call_ops(before.dunder_all, *x)));
    }
}

} // verus!
