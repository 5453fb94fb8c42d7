//! A qualified name: a name together with the place that defines it.

use std::cmp::Ordering;
use vstd::prelude::*;
use vstd::std_specs::cmp::PartialEqSpec;

use crate::ast::Identifier;
use crate::module_name::ModuleName;
use crate::text::{
    compare_text, lemma_text_order_equal, lemma_text_order_flips, lemma_text_order_transitive,
    text_order, Order, TextRange,
};

verus! {

/// A name, the range of the token that defines it, and the module that owns it. Two
/// qualified names are the same binding occurrence exactly when all of these agree.
#[derive(Clone, Debug, Ord)]
pub struct QName {
    pub name: Identifier,
    pub module: ModuleName,
}

/// The order of two offsets.
pub open spec fn offset_order(a: u32, b: u32) -> Order {
    if a < b {
        Order::Less
    } else if a == b {
        Order::Equal
    } else {
        Order::Greater
    }
}

/// The order of two keys: by name, then by start, then by end, then by module.
pub open spec fn key_order(
    a: (Seq<char>, u32, u32, Seq<char>),
    b: (Seq<char>, u32, u32, Seq<char>),
) -> Order {
    if text_order(a.0, b.0) != Order::Equal {
        text_order(a.0, b.0)
    } else if a.1 != b.1 {
        offset_order(a.1, b.1)
    } else if a.2 != b.2 {
        offset_order(a.2, b.2)
    } else {
        text_order(a.3, b.3)
    }
}

/// The order with its sides exchanged.
pub open spec fn flipped(o: Order) -> Order {
    match o {
        Order::Less => Order::Greater,
        Order::Equal => Order::Equal,
        Order::Greater => Order::Less,
    }
}

/// The same order in the terms of the standard library.
pub open spec fn std_order(o: Order) -> Ordering {
    match o {
        Order::Less => Ordering::Less,
        Order::Equal => Ordering::Equal,
        Order::Greater => Ordering::Greater,
    }
}

impl QName {
    /// What identifies and orders a qualified name: the name's text, the start and the end
    /// of its range, and the owning module's name.
    pub open spec fn key(&self) -> (Seq<char>, u32, u32, Seq<char>) {
        (self.name.id@, self.name.range.start, self.name.range.end, self.module@)
    }

    pub fn new(name: Identifier, module: ModuleName) -> (r: QName)
        ensures
            r.name == name,
            r.module == module,
    {
        QName { name, module }
    }

    pub fn id(&self) -> (r: &String)
        ensures
            r@ == self.name.id@,
    {
        &self.name.id
    }

    pub fn range(&self) -> (r: TextRange)
        ensures
            r == self.name.range,
    {
        self.name.range
    }

    /// Compares two qualified names by their keys.
    pub fn compare(&self, other: &QName) -> (r: Order)
        ensures
            r == key_order(self.key(), other.key()),
    {
        let by_name = compare_text(self.name.id.as_str(), other.name.id.as_str());
        if by_name != Order::Equal {
            by_name
        } else if self.name.range.start != other.name.range.start {
            if self.name.range.start < other.name.range.start {
                Order::Less
            } else {
                Order::Greater
            }
        } else if self.name.range.end != other.name.range.end {
            if self.name.range.end < other.name.range.end {
                Order::Less
            } else {
                Order::Greater
            }
        } else {
            self.module.compare(&other.module)
        }
    }

    /// The bare name.
    pub fn fmt_name(&self) -> (r: String)
        ensures
            r@ == self.name.id@,
    {
        self.name.id.clone()
    }

    /// The name after that of its module: `module.name`.
    pub fn fmt_with_module(&self) -> (r: String)
        ensures
            r@ == self.module@ + seq!['.'] + self.name.id@,
    {
        proof {
            reveal_strlit(".");
        }
        let mut r = String::from_str(self.module.as_str());
        r.append(".");
        assert(r@ == self.module@ + seq!['.']);
        r.append(self.name.id.as_str());
        r
    }

    /// The name after that of its module and before its place in the source, which the
    /// caller has rendered from the range: `module.name@location`.
    pub fn fmt_with_location(&self, location: &str) -> (r: String)
        ensures
            r@ == self.module@ + seq!['.'] + self.name.id@ + seq!['@'] + location@,
    {
        proof {
            reveal_strlit("@");
        }
        let mut r = self.fmt_with_module();
        r.append("@");
        assert(r@ == self.module@ + seq!['.'] + self.name.id@ + seq!['@']);
        r.append(location);
        r
    }
}

impl PartialEq for QName {
    fn eq(&self, other: &Self) -> (r: bool) {
        proof {
            lemma_text_order_equal(self.name.id@, other.name.id@);
            lemma_text_order_equal(self.module@, other.module@);
        }
        self.compare(other) == Order::Equal
    }
}

impl vstd::std_specs::cmp::PartialEqSpecImpl for QName {
    open spec fn obeys_eq_spec() -> bool {
        true
    }

    open spec fn eq_spec(&self, other: &Self) -> bool {
        self.key() == other.key()
    }
}

impl Eq for QName {

}

impl PartialOrd for QName {
    fn partial_cmp(&self, other: &Self) -> (r: Option<Ordering>) {
        Some(
            match self.compare(other) {
                Order::Less => Ordering::Less,
                Order::Equal => Ordering::Equal,
                Order::Greater => Ordering::Greater,
            },
        )
    }
}

impl vstd::std_specs::cmp::PartialOrdSpecImpl for QName {
    open spec fn obeys_partial_cmp_spec() -> bool {
        true
    }

    open spec fn partial_cmp_spec(&self, other: &Self) -> Option<Ordering> {
        Some(std_order(key_order(self.key(), other.key())))
    }
}

/// Two keys are in the order `Equal` exactly when they are the same key.
pub proof fn law_key_order_equal(
    a: (Seq<char>, u32, u32, Seq<char>),
    b: (Seq<char>, u32, u32, Seq<char>),
)
    ensures
        (key_order(a, b) == Order::Equal) == (a == b),
{
    lemma_text_order_equal(a.0, b.0);
    lemma_text_order_equal(a.3, b.3);
}

/// Exchanging the sides exchanges `Less` and `Greater`.
pub proof fn law_key_order_flips(
    a: (Seq<char>, u32, u32, Seq<char>),
    b: (Seq<char>, u32, u32, Seq<char>),
)
    ensures
        key_order(b, a) == flipped(key_order(a, b)),
{
    lemma_text_order_flips(a.0, b.0);
    lemma_text_order_flips(a.3, b.3);
}

/// What is not after `b` is not after anything that `b` is not after.
pub proof fn law_key_order_transitive(
    a: (Seq<char>, u32, u32, Seq<char>),
    b: (Seq<char>, u32, u32, Seq<char>),
    c: (Seq<char>, u32, u32, Seq<char>),
)
    requires
        key_order(a, b) != Order::Greater,
        key_order(b, c) != Order::Greater,
    ensures
        key_order(a, c) != Order::Greater,
        key_order(a, c) == Order::Equal ==> key_order(a, b) == Order::Equal && key_order(b, c)
            == Order::Equal,
{
    lemma_text_order_transitive(a.0, b.0, c.0);
    lemma_text_order_equal(a.0, b.0);
    lemma_text_order_equal(b.0, c.0);
    lemma_text_order_equal(a.0, c.0);
    if a.0 == b.0 && b.0 == c.0 && a.1 == b.1 && b.1 == c.1 && a.2 == b.2 && b.2 == c.2 {
        lemma_text_order_transitive(a.3, b.3, c.3);
    }
    lemma_text_order_equal(a.3, b.3);
    lemma_text_order_equal(b.3, c.3);
    lemma_text_order_equal(a.3, c.3);
}

/// Qualified names with the same text and different ranges are different names, and the
/// one whose range starts first, or ends first where they start together, comes first.
pub proof fn law_same_text_ordered_by_range(a: QName, b: QName)
    requires
        a.name.id@ == b.name.id@,
        a.name.range != b.name.range,
    ensures
        !a.eq_spec(&b),
        key_order(a.key(), b.key()) != Order::Equal,
        key_order(a.key(), b.key()) == (if a.name.range.start != b.name.range.start {
            offset_order(a.name.range.start, b.name.range.start)
        } else {
            offset_order(a.name.range.end, b.name.range.end)
        }),
{
    lemma_text_order_equal(a.name.id@, b.name.id@);
}

} // verus!
