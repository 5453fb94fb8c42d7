use module_definitions::ast::{
    Alias, ExceptHandler, Expr, Identifier, IfBranch, MatchCase, Operator, Pattern, Stmt, Verdict,
    WithItem,
};
use module_definitions::definitions::{
    DefinitionStyle, Definitions, DunderAllEntry, ModuleStyle,
};
use module_definitions::module_name::ModuleName;
use module_definitions::text::TextRange;
use ruff_python_ast as py;

fn range(x: ruff_text_size::TextRange) -> TextRange {
    TextRange::new(x.start().to_u32(), x.end().to_u32())
}

fn identifier(x: &py::Identifier) -> Identifier {
    Identifier { id: x.id.as_str().to_owned(), range: range(x.range) }
}

fn alias(x: &py::Alias) -> Alias {
    Alias { name: identifier(&x.name), asname: x.asname.as_ref().map(identifier) }
}

fn expr(x: &py::Expr) -> Expr {
    match x {
        py::Expr::Name(x) => Expr::Name { id: x.id.as_str().to_owned(), range: range(x.range) },
        py::Expr::StringLiteral(x) => {
            Expr::StringLiteral { value: x.value.to_str().to_owned(), range: range(x.range) }
        }
        py::Expr::List(x) => Expr::List { elts: x.elts.iter().map(expr).collect() },
        py::Expr::Tuple(x) => Expr::Tuple { elts: x.elts.iter().map(expr).collect() },
        py::Expr::Starred(x) => Expr::Starred { value: Box::new(expr(&x.value)) },
        py::Expr::Attribute(x) => {
            Expr::Attribute { value: Box::new(expr(&x.value)), attr: identifier(&x.attr) }
        }
        py::Expr::Subscript(x) => {
            Expr::Subscript { value: Box::new(expr(&x.value)), slice: Box::new(expr(&x.slice)) }
        }
        py::Expr::Call(x) => Expr::Call {
            func: Box::new(expr(&x.func)),
            args: x.arguments.args.iter().map(expr).collect(),
            keywords: x.arguments.keywords.iter().map(|k| expr(&k.value)).collect(),
        },
        _ => Expr::Other,
    }
}

fn pattern(x: &py::Pattern) -> Pattern {
    match x {
        py::Pattern::MatchValue(_) => Pattern::MatchValue,
        py::Pattern::MatchSingleton(_) => Pattern::MatchSingleton,
        py::Pattern::MatchSequence(x) => {
            Pattern::MatchSequence { patterns: x.patterns.iter().map(pattern).collect() }
        }
        py::Pattern::MatchMapping(x) => Pattern::MatchMapping {
            patterns: x.patterns.iter().map(pattern).collect(),
            rest: x.rest.as_ref().map(identifier),
        },
        py::Pattern::MatchClass(x) => Pattern::MatchClass {
            patterns: x
                .arguments
                .patterns
                .iter()
                .chain(x.arguments.keywords.iter().map(|k| &k.pattern))
                .map(pattern)
                .collect(),
        },
        py::Pattern::MatchStar(x) => Pattern::MatchStar { name: x.name.as_ref().map(identifier) },
        py::Pattern::MatchAs(x) => Pattern::MatchAs {
            pattern: x.pattern.as_ref().map(|p| Box::new(pattern(p))),
            name: x.name.as_ref().map(identifier),
        },
        py::Pattern::MatchOr(x) => {
            Pattern::MatchOr { patterns: x.patterns.iter().map(pattern).collect() }
        }
    }
}

/// Guards that are the literals `True` and `False` are known, every other guard is not.
fn verdict(test: Option<&py::Expr>) -> Verdict {
    match test {
        None => Verdict::True,
        Some(py::Expr::BooleanLiteral(x)) => {
            if x.value {
                Verdict::True
            } else {
                Verdict::False
            }
        }
        Some(_) => Verdict::Unknown,
    }
}

fn operator(x: py::Operator) -> Operator {
    match x {
        py::Operator::Add => Operator::Add,
        py::Operator::Sub => Operator::Sub,
        py::Operator::Mult => Operator::Mult,
        py::Operator::MatMult => Operator::MatMult,
        py::Operator::Div => Operator::Div,
        py::Operator::Mod => Operator::Mod,
        py::Operator::Pow => Operator::Pow,
        py::Operator::LShift => Operator::LShift,
        py::Operator::RShift => Operator::RShift,
        py::Operator::BitOr => Operator::BitOr,
        py::Operator::BitXor => Operator::BitXor,
        py::Operator::BitAnd => Operator::BitAnd,
        py::Operator::FloorDiv => Operator::FloorDiv,
    }
}

fn stmts(x: &[py::Stmt]) -> Vec<Stmt> {
    x.iter().map(stmt).collect()
}

fn stmt(x: &py::Stmt) -> Stmt {
    match x {
        py::Stmt::Import(x) => Stmt::Import { names: x.names.iter().map(alias).collect() },
        py::Stmt::ImportFrom(x) => Stmt::ImportFrom {
            module: x.module.as_ref().map(identifier),
            level: x.level,
            names: x.names.iter().map(alias).collect(),
            range: range(x.range),
        },
        py::Stmt::ClassDef(x) => Stmt::ClassDef { name: identifier(&x.name), body: stmts(&x.body) },
        py::Stmt::FunctionDef(x) => {
            Stmt::FunctionDef { name: identifier(&x.name), body: stmts(&x.body) }
        }
        py::Stmt::Assign(x) => {
            Stmt::Assign { targets: x.targets.iter().map(expr).collect(), value: expr(&x.value) }
        }
        py::Stmt::AugAssign(x) => {
            Stmt::AugAssign { target: expr(&x.target), op: operator(x.op), value: expr(&x.value) }
        }
        py::Stmt::AnnAssign(x) => Stmt::AnnAssign { target: expr(&x.target) },
        py::Stmt::TypeAlias(x) => Stmt::TypeAlias { name: expr(&x.name) },
        py::Stmt::For(x) => {
            Stmt::For { target: expr(&x.target), body: stmts(&x.body), orelse: stmts(&x.orelse) }
        }
        py::Stmt::While(x) => Stmt::While { body: stmts(&x.body), orelse: stmts(&x.orelse) },
        py::Stmt::With(x) => Stmt::With {
            items: x
                .items
                .iter()
                .map(|i| WithItem { optional_vars: i.optional_vars.as_ref().map(|v| expr(v)) })
                .collect(),
            body: stmts(&x.body),
        },
        py::Stmt::Match(x) => Stmt::Match {
            cases: x
                .cases
                .iter()
                .map(|c| MatchCase { pattern: pattern(&c.pattern), body: stmts(&c.body) })
                .collect(),
        },
        py::Stmt::Try(x) => Stmt::Try {
            body: stmts(&x.body),
            handlers: x
                .handlers
                .iter()
                .map(|h| match h {
                    py::ExceptHandler::ExceptHandler(h) => ExceptHandler {
                        name: h.name.as_ref().map(identifier),
                        body: stmts(&h.body),
                    },
                })
                .collect(),
            orelse: stmts(&x.orelse),
            finalbody: stmts(&x.finalbody),
        },
        py::Stmt::If(x) => {
            let mut branches =
                vec![IfBranch { verdict: verdict(Some(&x.test)), body: stmts(&x.body) }];
            for clause in &x.elif_else_clauses {
                branches.push(IfBranch {
                    verdict: verdict(clause.test.as_ref()),
                    body: stmts(&clause.body),
                });
            }
            Stmt::If { branches }
        }
        py::Stmt::Expr(x) => Stmt::Expr { value: expr(&x.value) },
        _ => Stmt::Other,
    }
}

fn scan_as(contents: &str, module: &str, is_init: bool) -> Definitions {
    let parsed = ruff_python_parser::parse_module(contents).unwrap();
    let body = stmts(&parsed.syntax().body);
    Definitions::new(&body, ModuleName::from_str(module), is_init)
}

fn scan(contents: &str) -> Definitions {
    scan_as(contents, "main", false)
}

fn names(defs: &Definitions) -> Vec<&str> {
    defs.definitions().keys().map(|x| x.as_str()).collect()
}

fn wildcards(defs: &Definitions) -> Vec<&str> {
    defs.import_all().keys().map(|x| x.as_str()).collect()
}

fn unrange(x: &DunderAllEntry) -> DunderAllEntry {
    match x {
        DunderAllEntry::Name(_, name) => DunderAllEntry::Name(TextRange::default(), name.clone()),
        DunderAllEntry::Module(_, module) => {
            DunderAllEntry::Module(TextRange::default(), module.clone())
        }
        DunderAllEntry::Remove(_, name) => {
            DunderAllEntry::Remove(TextRange::default(), name.clone())
        }
    }
}

fn log(defs: &Definitions) -> Vec<DunderAllEntry> {
    defs.dunder_all().iter().map(unrange).collect()
}

fn add(name: &str) -> DunderAllEntry {
    DunderAllEntry::Name(TextRange::default(), name.to_owned())
}

fn add_module(name: &str) -> DunderAllEntry {
    DunderAllEntry::Module(TextRange::default(), ModuleName::from_str(name))
}

fn remove(name: &str) -> DunderAllEntry {
    DunderAllEntry::Remove(TextRange::default(), name.to_owned())
}

fn entry(defs: &Definitions, name: &str) -> (TextRange, DefinitionStyle, usize) {
    *defs.definitions().get(name).unwrap()
}

fn check(contents: &str, import_all: &[&str], defs: &[&str]) -> Definitions {
    let res = scan(contents);
    assert_eq!(import_all, wildcards(&res));
    assert_eq!(defs, names(&res));
    res
}

#[test]
fn test_definitions() {
    check(
        r#"
from foo import *
from bar import baz as qux
from bar import moo
import mod.ule
import mod.lue

def x():
    y = 1

for z, w in []:
    pass

no.thing = 8

n = True

r[p] = 1
"#,
        &["foo"],
        &["qux", "moo", "mod", "x", "z", "w", "n"],
    );
}

#[test]
fn test_all() {
    let defs = check(
        r#"
from foo import *
a = 1
b = 1

# Follow the spec at https://typing.readthedocs.io/en/latest/spec/distributing.html#library-interface-public-and-private-symbols
__all__ = ("a", "b")
__all__ += ["a", "b"]
__all__ += foo.__all__
__all__.extend(['a', 'b'])
__all__.extend(foo.__all__)
__all__.append('a')
__all__.remove('r')
        "#,
        &["foo"],
        &["a", "b", "__all__"],
    );
    let a = add("a");
    let b = add("b");
    let foo = add_module("foo");
    let r = remove("r");
    assert_eq!(
        log(&defs),
        vec![
            a.clone(),
            b.clone(),
            a.clone(),
            b.clone(),
            foo.clone(),
            a.clone(),
            b.clone(),
            foo.clone(),
            a.clone(),
            r
        ]
    );
}

#[test]
fn test_all_reexport() {
    let defs = check(
        r#"
from _collections_abc import *
from _collections_abc import __all__ as __all__
"#,
        &["_collections_abc"],
        &["__all__"],
    );
    assert_eq!(log(&defs), vec![add_module("_collections_abc")]);
}

#[test]
fn test_scan_twice_gives_same_table() {
    let contents = "from foo import *\nimport a.b\nx = 1\nx = 2\n__all__ = ['x']\n";
    let first = scan(contents);
    let second = scan(contents);
    assert_eq!(names(&first), names(&second));
    assert_eq!(wildcards(&first), wildcards(&second));
    assert_eq!(first.dunder_all(), second.dunder_all());
    assert_eq!(first.definitions(), second.definitions());
    assert_eq!(first.import_all(), second.import_all());
}

#[test]
fn test_local_after_import_is_local_with_count_two() {
    let defs = scan("from m import x\nx = 1\n");
    assert_eq!(names(&defs), vec!["x"]);
    assert_eq!(entry(&defs, "x"), (TextRange::new(14, 15), DefinitionStyle::Local, 2));
}

#[test]
fn test_import_after_local_stays_local() {
    let defs = scan("x = 1\nfrom m import x\nimport x\n");
    assert_eq!(entry(&defs, "x"), (TextRange::new(0, 1), DefinitionStyle::Local, 3));
}

#[test]
fn test_styles_of_imports() {
    let defs = scan(
        "import a.b.c\nimport d as d\nimport e.f as g\nfrom m import h\nfrom m import i as i\nfrom m import j as k\n",
    );
    assert_eq!(names(&defs), vec!["a", "d", "g", "h", "i", "k"]);
    assert_eq!(entry(&defs, "a"), (TextRange::new(7, 12), DefinitionStyle::ImportModule, 1));
    assert_eq!(entry(&defs, "d").1, DefinitionStyle::ImportAsEq);
    assert_eq!(entry(&defs, "g").1, DefinitionStyle::ImportAs);
    assert_eq!(entry(&defs, "h").1, DefinitionStyle::Import);
    assert_eq!(entry(&defs, "i").1, DefinitionStyle::ImportAsEq);
    assert_eq!(entry(&defs, "k").1, DefinitionStyle::ImportAs);
}

#[test]
fn test_weaker_style_does_not_replace_stronger() {
    let defs = scan("from m import x as x\nfrom m import x as y\nfrom m import y\nimport y\n");
    assert_eq!(entry(&defs, "x"), (TextRange::new(19, 20), DefinitionStyle::ImportAsEq, 1));
    assert_eq!(entry(&defs, "y").1, DefinitionStyle::ImportAs);
    assert_eq!(entry(&defs, "y").2, 3);
}

#[test]
fn test_alias_that_repeats_the_name_is_stronger_than_another_alias() {
    let defs = scan("from m import x as y\nfrom n import y as y\n");
    assert_eq!(entry(&defs, "y"), (TextRange::new(19, 20), DefinitionStyle::ImportAsEq, 2));
    let defs = scan("from n import y as y\nfrom m import x as y\n");
    assert_eq!(entry(&defs, "y"), (TextRange::new(19, 20), DefinitionStyle::ImportAsEq, 2));
}

#[test]
fn test_clone_keeps_the_table_as_scanned() {
    let raw = scan("from foo import *\na = 1\n");
    let mut enriched = raw.clone();
    enriched.inject_builtins();
    enriched.ensure_dunder_all(ModuleStyle::Executable);
    assert_eq!(wildcards(&raw), vec!["foo"]);
    assert!(raw.dunder_all().is_empty());
    assert_eq!(wildcards(&enriched), vec!["foo", "builtins"]);
    assert_eq!(log(&enriched), vec![add_module("foo"), add_module("builtins"), add("a")]);
    assert_eq!(names(&raw), names(&enriched));
}

#[test]
fn test_default_table_is_empty() {
    let mut defs = Definitions::default();
    assert!(defs.definitions().is_empty());
    assert!(defs.import_all().is_empty());
    assert!(defs.dunder_all().is_empty());
    defs.inject_builtins();
    defs.ensure_dunder_all(ModuleStyle::Executable);
    assert_eq!(log(&defs), vec![add_module("builtins")]);
}

#[test]
fn test_bodies_of_functions_and_classes_are_not_scanned() {
    let defs = scan(
        "def f():\n    inner = 1\n    import hidden\n    __all__ = ['inner']\nclass C:\n    field = 2\n    def method(self):\n        pass\n",
    );
    assert_eq!(names(&defs), vec!["f", "C"]);
    assert!(defs.dunder_all().is_empty());
}

#[test]
fn test_false_branch_contributes_nothing() {
    let defs = scan("if False:\n    a = 1\nelse:\n    b = 1\n");
    assert_eq!(names(&defs), vec!["b"]);
}

#[test]
fn test_true_branch_ends_the_chain() {
    let defs = scan("if True:\n    a = 1\nelif x:\n    b = 1\nelse:\n    c = 1\n");
    assert_eq!(names(&defs), vec!["a"]);
}

#[test]
fn test_unknown_guards_join_all_branches() {
    let defs = scan("if x:\n    a = 1\nelif y:\n    b = 1\nelse:\n    c = 1\n");
    assert_eq!(names(&defs), vec!["a", "b", "c"]);
}

#[test]
fn test_unknown_then_true_stops_before_else() {
    let defs = scan("if x:\n    a = 1\nelif True:\n    b = 1\nelse:\n    c = 1\n");
    assert_eq!(names(&defs), vec!["a", "b"]);
}

#[test]
fn test_nested_statements_are_scanned_in_source_order() {
    let defs = scan(
        "for i in xs:\n    a = 1\nelse:\n    b = 1\nwhile c:\n    d = 1\nelse:\n    e = 1\nwith f() as g, h() as (j, k):\n    m = 1\ntry:\n    n = 1\nexcept E as o:\n    p = 1\nexcept F:\n    pass\nelse:\n    q = 1\nfinally:\n    r = 1\n",
    );
    assert_eq!(
        names(&defs),
        vec!["i", "a", "b", "d", "e", "g", "j", "k", "m", "o", "n", "p", "q", "r"]
    );
}

#[test]
fn test_match_patterns_bind_captures() {
    let defs = scan(
        "match v:\n    case [a, *b]:\n        c = 1\n    case {'k': d, **e}:\n        pass\n    case P(f, g=h) as i:\n        pass\n    case j | 1:\n        pass\n    case _:\n        pass\n",
    );
    assert_eq!(names(&defs), vec!["a", "b", "e", "d", "i", "f", "h", "j", "c"]);
}

#[test]
fn test_other_targets() {
    let defs = scan("a: int = 1\nb: int\ntype T = int\nc += 1\n[d, (e, *f)] = v\ng = h = 1\nx.y += 1\n");
    assert_eq!(names(&defs), vec!["a", "b", "T", "c", "d", "e", "f", "g", "h"]);
}

#[test]
fn test_assignment_resets_log() {
    let defs = scan("__all__ = ['a']\n__all__ += ['b']\n__all__ = ['c']\n");
    assert_eq!(log(&defs), vec![add("c")]);
    assert_eq!(entry(&defs, "__all__").2, 2);
}

#[test]
fn test_computed_right_hand_side_gives_no_operation() {
    let defs = scan("__all__ = ['a']\n__all__ = make()\n");
    assert!(defs.dunder_all().is_empty());
    let defs = scan("__all__ = ['a']\n__all__ += make()\n__all__.extend(x for x in y)\n");
    assert_eq!(log(&defs), vec![add("a")]);
}

#[test]
fn test_elements_that_are_not_literals_are_dropped() {
    let defs = scan("__all__ = ['a', b, 'c', 1, f('d')]\n");
    assert_eq!(log(&defs), vec![add("a"), add("c")]);
}

#[test]
fn test_log_keeps_ranges() {
    let defs = scan("__all__ = ['a']\n__all__ += m.__all__\n__all__.remove('a')\n");
    assert_eq!(
        defs.dunder_all(),
        &vec![
            DunderAllEntry::Name(TextRange::new(11, 14), "a".to_owned()),
            DunderAllEntry::Module(TextRange::new(27, 28), ModuleName::from_str("m")),
            DunderAllEntry::Remove(TextRange::new(52, 55), "a".to_owned()),
        ]
    );
}

#[test]
fn test_remove_is_logged_and_deletes_nothing() {
    let defs = scan("__all__ = ['a', 'b']\n__all__.remove('a')\n__all__.remove('zzz')\n");
    assert_eq!(log(&defs), vec![add("a"), add("b"), remove("a"), remove("zzz")]);
}

#[test]
fn test_calls_that_are_not_recognised_are_ignored() {
    let defs = scan(
        "__all__ = ['a']\n__all__.remove(x)\n__all__.append(x)\n__all__.append('b', 'c')\n__all__.append()\n__all__.append(x='b')\n__all__.extend(['b'], key=1)\n__all__.insert(0, 'b')\n__all__.clear()\n__all__.sort('b')\nother.append('b')\nappend('b')\n",
    );
    assert_eq!(log(&defs), vec![add("a")]);
}

#[test]
fn test_augmented_assignment_with_other_operator_binds() {
    let defs = scan("__all__ -= ['a']\n");
    assert_eq!(names(&defs), vec!["__all__"]);
    assert!(defs.dunder_all().is_empty());
    let defs = scan("__all__ += ['a']\n");
    assert!(names(&defs).is_empty());
    assert_eq!(log(&defs), vec![add("a")]);
}

#[test]
fn test_module_attribute_must_be_bare_name() {
    let defs = scan("__all__ = a.b.__all__\n__all__ += a.other\n__all__ += f().__all__\n");
    assert!(defs.dunder_all().is_empty());
}

#[test]
fn test_wildcard_import_is_recorded_once_with_first_range() {
    let defs = scan("from foo import *\nfrom bar import *\nfrom foo import *\n");
    assert_eq!(wildcards(&defs), vec!["foo", "bar"]);
    assert_eq!(defs.import_all().get("foo"), Some(&TextRange::new(16, 17)));
    assert!(names(&defs).is_empty());
}

#[test]
fn test_relative_imports() {
    let defs = scan_as("from . import *\nfrom .x import *\nfrom ..y import *\nfrom .. import *\n", "a.b.c", false);
    assert_eq!(wildcards(&defs), vec!["a.b", "a.b.x", "a.y", "a"]);
    let defs = scan_as("from . import *\nfrom .x import *\nfrom ..y import *\n", "a.b", true);
    assert_eq!(wildcards(&defs), vec!["a.b", "a.b.x", "a.y"]);
}

#[test]
fn test_relative_import_above_root_is_dropped() {
    let defs = scan_as(
        "from ...x import *\nfrom ...x import __all__ as __all__\nfrom ...x import y, z as w\nfrom . import v\n",
        "a",
        false,
    );
    assert!(wildcards(&defs).is_empty());
    assert!(defs.dunder_all().is_empty());
    assert_eq!(names(&defs), vec!["v"]);
}

#[test]
fn test_reexport_resets_log_with_statement_range() {
    let defs = scan("__all__ = ['a']\nfrom m import __all__ as __all__\n");
    assert_eq!(
        defs.dunder_all(),
        &vec![DunderAllEntry::Module(TextRange::new(16, 48), ModuleName::from_str("m"))]
    );
    let defs = scan("__all__ = ['a']\nfrom m import __all__\nfrom m import __all__ as b\n");
    assert_eq!(log(&defs), vec![add("a")]);
}

#[test]
fn test_inject_builtins() {
    let mut defs = scan("from foo import *\n");
    defs.inject_builtins();
    assert_eq!(wildcards(&defs), vec!["foo", "builtins"]);
    assert_eq!(defs.import_all().get("builtins"), Some(&TextRange::default()));
    defs.inject_builtins();
    assert_eq!(wildcards(&defs), vec!["foo", "builtins"]);
}

#[test]
fn test_inject_builtins_keeps_explicit_entry() {
    let mut defs = scan("from builtins import *\n");
    defs.inject_builtins();
    assert_eq!(wildcards(&defs), vec!["builtins"]);
    assert_eq!(defs.import_all().get("builtins"), Some(&TextRange::new(21, 22)));
}

#[test]
fn test_default_exports_of_executable_module() {
    let mut defs = scan("from foo import *\na = 1\nb = 1\n");
    defs.ensure_dunder_all(ModuleStyle::Executable);
    assert_eq!(log(&defs), vec![add_module("foo"), add("a"), add("b")]);
}

#[test]
fn test_default_exports_of_interface() {
    let mut defs = scan("from foo import *\na = 1\nb = 1\n");
    defs.ensure_dunder_all(ModuleStyle::Interface);
    assert_eq!(log(&defs), vec![add("a"), add("b")]);
}

#[test]
fn test_default_exports_by_style_of_definition() {
    let contents = "import m\nimport n as n\nimport o as p\nfrom q import r\nfrom q import s as s\nfrom q import t as u\nv = 1\n_w = 1\nfrom q import _x as _x\n";
    let mut defs = scan(contents);
    defs.ensure_dunder_all(ModuleStyle::Interface);
    assert_eq!(log(&defs), vec![add("n"), add("s"), add("v")]);
    let mut defs = scan(contents);
    defs.ensure_dunder_all(ModuleStyle::Executable);
    assert_eq!(
        log(&defs),
        vec![add("m"), add("n"), add("p"), add("r"), add("s"), add("u"), add("v")]
    );
}

#[test]
fn test_default_exports_keep_ranges() {
    let mut defs = scan("from foo import *\na = 1\n");
    defs.ensure_dunder_all(ModuleStyle::Executable);
    assert_eq!(
        defs.dunder_all(),
        &vec![
            DunderAllEntry::Module(TextRange::new(16, 17), ModuleName::from_str("foo")),
            DunderAllEntry::Name(TextRange::new(18, 19), "a".to_owned()),
        ]
    );
}

#[test]
fn test_explicit_export_list_is_kept() {
    let mut defs = scan("from foo import *\na = 1\n__all__ = []\n");
    defs.ensure_dunder_all(ModuleStyle::Executable);
    assert!(defs.dunder_all().is_empty());
    let mut defs = scan("a = 1\n__all__ = ['b']\n");
    defs.ensure_dunder_all(ModuleStyle::Interface);
    assert_eq!(log(&defs), vec![add("b")]);
}

#[test]
fn test_log_with_an_operation_is_kept_without_binding() {
    let mut defs = scan("a = 1\n__all__ += ['b']\n");
    assert_eq!(names(&defs), vec!["a"]);
    defs.ensure_dunder_all(ModuleStyle::Interface);
    assert_eq!(log(&defs), vec![add("b")]);
    let mut defs = scan("from foo import *\na = 1\n__all__.append('b')\n");
    assert_eq!(names(&defs), vec!["a"]);
    defs.ensure_dunder_all(ModuleStyle::Executable);
    assert_eq!(log(&defs), vec![add("b")]);
    let mut defs = scan("from foo import *\na = 1\n__all__.remove('a')\n");
    defs.ensure_dunder_all(ModuleStyle::Executable);
    assert_eq!(log(&defs), vec![remove("a")]);
}

#[test]
fn test_default_exports_are_given_once() {
    let mut defs = scan("from foo import *\na = 1\n");
    defs.ensure_dunder_all(ModuleStyle::Executable);
    defs.ensure_dunder_all(ModuleStyle::Executable);
    assert_eq!(log(&defs), vec![add_module("foo"), add("a")]);
}

#[test]
fn test_log_without_operations_gets_default_exports() {
    let mut defs = scan("a = 1\n__all__ += make()\n__all__.extend([x])\n");
    assert!(defs.dunder_all().is_empty());
    defs.ensure_dunder_all(ModuleStyle::Interface);
    assert_eq!(log(&defs), vec![add("a")]);
}

#[test]
fn test_empty_module() {
    let mut defs = scan("");
    assert!(names(&defs).is_empty());
    assert!(wildcards(&defs).is_empty());
    assert!(defs.dunder_all().is_empty());
    defs.ensure_dunder_all(ModuleStyle::Executable);
    assert!(defs.dunder_all().is_empty());
}

#[test]
fn test_styles_are_ordered_from_strongest() {
    assert!(DefinitionStyle::Local < DefinitionStyle::ImportAsEq);
    assert!(DefinitionStyle::ImportAsEq < DefinitionStyle::ImportAs);
    assert!(DefinitionStyle::ImportAs < DefinitionStyle::Import);
    assert!(DefinitionStyle::Import < DefinitionStyle::ImportModule);
    let all = [
        DefinitionStyle::Local,
        DefinitionStyle::ImportAsEq,
        DefinitionStyle::ImportAs,
        DefinitionStyle::Import,
        DefinitionStyle::ImportModule,
    ];
    for (i, a) in all.iter().enumerate() {
        assert_eq!(a.rank() as usize, i);
        for b in all.iter() {
            assert_eq!(a.stronger(*b), std::cmp::min(*a, *b));
        }
    }
}

#[test]
fn test_parts_of_export_statements() {
    let name = Expr::Name { id: "__all__".to_owned(), range: TextRange::new(0, 7) };
    let other = Expr::Name { id: "__all".to_owned(), range: TextRange::new(0, 5) };
    assert!(DunderAllEntry::is_all(&name));
    assert!(!DunderAllEntry::is_all(&other));
    assert!(!DunderAllEntry::is_all(&Expr::Other));
    let literal = Expr::StringLiteral { value: "a".to_owned(), range: TextRange::new(1, 4) };
    assert_eq!(
        DunderAllEntry::as_item(&literal),
        Some(DunderAllEntry::Name(TextRange::new(1, 4), "a".to_owned()))
    );
    assert_eq!(DunderAllEntry::as_item(&name), None);
    assert_eq!(
        DunderAllEntry::as_list(&Expr::List { elts: vec![Expr::Other, literal] }),
        vec![DunderAllEntry::Name(TextRange::new(1, 4), "a".to_owned())]
    );
    assert_eq!(DunderAllEntry::as_list(&Expr::Other), vec![]);
}
