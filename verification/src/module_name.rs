//! Dotted module names and the resolution of relative imports.

use vstd::prelude::*;
use vstd::std_specs::iter::IteratorSpec;

use crate::text::{
    compare_text, first_index_of, last_index_of, lemma_first_index_of, lemma_last_index_of,
    text_order, Order,
};

verus! {

/// The absolute dotted name of a module, such as `os.path`.
#[derive(Clone, Debug, PartialEq, Eq, Hash, PartialOrd, Ord)]
pub struct ModuleName {
    name: String,
}

impl View for ModuleName {
    type V = Seq<char>;

    closed spec fn view(&self) -> Seq<char> {
        self.name@
    }
}

/// What is left of a dotted name after some of its trailing components were removed.
pub enum Stripped {
    /// More components were to be removed than the name has.
    Escaped,
    /// Every component was removed.
    Nothing,
    /// The components that remain, joined by dots.
    Prefix(Seq<char>),
}

/// Removes the last `k` components of the dotted name `s`. A name without a dot is one
/// component, the empty name included.
pub open spec fn strip_components(s: Seq<char>, k: nat) -> Stripped
    decreases k,
{
    if k == 0 {
        Stripped::Prefix(s)
    } else if last_index_of(s, '.') >= 0 {
        strip_components(s.subrange(0, last_index_of(s, '.')), (k - 1) as nat)
    } else if k == 1 {
        Stripped::Nothing
    } else {
        Stripped::Escaped
    }
}

/// The number of packages that `dots` leading dots climb: in a package initializer the
/// first dot stands for the package itself.
pub open spec fn climbs(is_init: bool, dots: nat) -> nat {
    if is_init && dots > 0 {
        (dots - 1) as nat
    } else {
        dots
    }
}

/// The module that `from <dots><suffix> import ...` names when it stands in module `current`.
///
/// Without leading dots the import is absolute and names `suffix`. Each leading dot climbs
/// one package; in a package initializer the first dot stands for the package itself. The
/// result is `None` where the dots climb above the root package.
pub open spec fn resolve_relative(
    current: Seq<char>,
    is_init: bool,
    dots: nat,
    suffix: Option<Seq<char>>,
) -> Option<Seq<char>> {
    if dots == 0 {
        match suffix {
            Some(s) => Some(s),
            None => Some(current),
        }
    } else {
        match (strip_components(current, climbs(is_init, dots)), suffix) {
            (Stripped::Escaped, _) => None,
            (Stripped::Nothing, Some(s)) => Some(s),
            (Stripped::Nothing, None) => Some(Seq::empty()),
            (Stripped::Prefix(p), Some(s)) => Some(p + seq!['.'] + s),
            (Stripped::Prefix(p), None) => Some(p),
        }
    }
}

impl ModuleName {
    pub fn from_str(s: &str) -> (r: ModuleName)
        ensures
            r@ == s@,
    {
        ModuleName { name: String::from_str(s) }
    }

    pub fn from_name(name: &String) -> (r: ModuleName)
        ensures
            r@ == name@,
    {
        ModuleName { name: name.clone() }
    }

    /// The module of the names that every module sees without importing them.
    pub fn builtins() -> (r: ModuleName)
        ensures
            r@ == "builtins"@,
    {
        ModuleName { name: String::from_str("builtins") }
    }

    pub fn as_str(&self) -> (r: &str)
        ensures
            r@ == self@,
    {
        self.name.as_str()
    }

    /// The top-level package of the name: what `import a.b.c` binds.
    pub fn first_component(&self) -> (r: String)
        ensures
            r@ == self@.subrange(0, first_index_of(self@, '.')),
    {
        let s = self.name.as_str();
        let n = s.unicode_len();
        let mut rest = s.chars();
        let mut i: usize = 0;
        assert(s@.skip(0) =~= s@);
        loop
            invariant_except_break
                rest.remaining() == s@.skip(i as int),
                rest.obeys_prophetic_iter_laws(),
                rest.decrease() is Some,
            invariant
                n == s@.len(),
                i <= n,
                forall|j: int| 0 <= j < i ==> s@[j] != '.',
            ensures
                i == n || s@[i as int] == '.',
            decreases rest.decrease()->0,
        {
            match rest.next() {
                Some(c) => {
                    if c == '.' {
                        break ;
                    }
                    assert(s@.skip(i as int).drop_first() =~= s@.skip(i + 1));
                    i += 1;
                },
                None => {
                    break ;
                },
            }
        }
        proof {
            lemma_first_index_of(s@, '.');
        }
        String::from_str(s.substring_char(0, i))
    }

    /// Resolves the module of a from-import that stands in this module: see
    /// `resolve_relative`.
    pub fn new_maybe_relative(&self, is_init: bool, dots: u32, suffix: Option<&String>) -> (r:
        Option<ModuleName>)
        ensures
            r.is_some() == resolve_relative(
                self@,
                is_init,
                dots as nat,
                suffix_view(suffix),
            ).is_some(),
            r.is_some() ==> r.unwrap()@ == resolve_relative(
                self@,
                is_init,
                dots as nat,
                suffix_view(suffix),
            ).unwrap(),
    {
        if dots == 0 {
            return match suffix {
                Some(s) => Some(ModuleName::from_name(s)),
                None => Some(self.clone_name()),
            };
        }
        let s = self.name.as_str();
        let mut end: usize = s.unicode_len();
        let mut left: u32 = if is_init {
            dots - 1
        } else {
            dots
        };
        let ghost whole = strip_components(s@, left as nat);
        let mut nothing = false;
        assert(s@.subrange(0, end as int) =~= s@);
        while left > 0
            invariant
                s@ == self@,
                dots > 0,
                whole == strip_components(self@, climbs(is_init, dots as nat)),
                end <= s@.len(),
                !nothing ==> whole == strip_components(s@.subrange(0, end as int), left as nat),
                nothing ==> left == 0 && whole == Stripped::Nothing,
            decreases left,
        {
            let ghost head = s@.subrange(0, end as int);
            let mut j: usize = end;
            while j > 0 && s.get_char(j - 1) != '.'
                invariant
                    j <= end <= s@.len(),
                    head == s@.subrange(0, end as int),
                    forall|k: int| j <= k < end ==> head[k] != '.',
                decreases j,
            {
                j -= 1;
            }
            proof {
                lemma_last_index_of(head, '.');
                if j > 0 {
                    assert(head[j - 1] == '.');
                    assert(last_index_of(head, '.') == j - 1);
                    assert(head.subrange(0, j - 1) == s@.subrange(0, j - 1));
                } else {
                    assert(last_index_of(head, '.') == -1);
                }
            }
            if j > 0 {
                end = j - 1;
                left -= 1;
            } else if left == 1 {
                nothing = true;
                left = 0;
            } else {
                return None;
            }
        }
        let mut name = if nothing {
            String::new()
        } else {
            String::from_str(s.substring_char(0, end))
        };
        if let Some(base) = suffix {
            if !nothing {
                proof {
                    reveal_strlit(".");
                }
                name.append(".");
                assert(name@ == s@.subrange(0, end as int) + seq!['.']);
            }
            name.append(base.as_str());
        }
        Some(ModuleName { name })
    }

    /// Whether two names are the same.
    pub fn equals(&self, other: &ModuleName) -> (r: bool)
        ensures
            r == (self@ == other@),
    {
        self.name == other.name
    }

    /// The lexicographic order of two names.
    pub fn compare(&self, other: &ModuleName) -> (r: Order)
        ensures
            r == text_order(self@, other@),
    {
        compare_text(self.name.as_str(), other.name.as_str())
    }

    fn clone_name(&self) -> (r: ModuleName)
        ensures
            r@ == self@,
    {
        ModuleName { name: self.name.clone() }
    }
}

/// The characters of an optional name.
pub open spec fn suffix_view(suffix: Option<&String>) -> Option<Seq<char>> {
    match suffix {
        Some(s) => Some(s@),
        None => None,
    }
}

} // verus!
