//! What deciding the subtype relation needs to know of classes: superclasses, metaclasses
//! and the standard library's own classes.

use vstd::prelude::*;

verus! {

/// A class object, known by its index in the solver's table of classes.
#[derive(Clone, Copy, Debug, PartialEq, Eq, Hash, Structural)]
pub struct Class {
    pub index: u32,
}

/// A class applied to type arguments, which are known by the number of their tuple.
#[derive(Clone, Copy, Debug, PartialEq, Eq, Hash, Structural)]
pub struct ClassType {
    pub class: Class,
    pub targs: u32,
}

/// What is recorded of a class.
#[derive(Clone, Debug)]
pub struct ClassMetadata {
    /// The superclasses in method resolution order, nearest first, without the class itself
    /// and without `object`.
    pub ancestors: Vec<ClassType>,
    pub metaclass: Option<ClassType>,
}

/// The classes of the standard library that subtyping refers to.
#[derive(Clone, Copy, Debug, PartialEq, Eq, Hash, Structural)]
pub struct Stdlib {
    /// `object`, the last superclass of every class.
    pub object: ClassType,
}

/// The answers about classes that solving has produced so far.
#[derive(Debug)]
pub struct AnswersSolver {
    pub stdlib: Stdlib,
    /// The metadata of each class, at the class's index.
    pub classes: Vec<ClassMetadata>,
}

/// The first of `types` that applies the class `want`.
pub open spec fn first_of_class(types: Seq<ClassType>, want: Class) -> Option<ClassType>
    decreases types.len(),
{
    if types.len() == 0 {
        None
    } else if types[0].class == want {
        Some(types[0])
    } else {
        first_of_class(types.drop_first(), want)
    }
}

impl AnswersSolver {
    /// The superclasses of a class, nearest first and `object` last. Of a class that the
    /// table does not hold only `object` is known.
    pub open spec fn ancestors(&self, cls: Class) -> Seq<ClassType> {
        if cls.index < self.classes@.len() {
            self.classes@[cls.index as int].ancestors@.push(self.stdlib.object)
        } else {
            seq![self.stdlib.object]
        }
    }

    /// The metaclass recorded for a class.
    pub open spec fn metaclass(&self, cls: Class) -> Option<ClassType> {
        if cls.index < self.classes@.len() {
            self.classes@[cls.index as int].metaclass
        } else {
            None
        }
    }

    /// `class` seen as the class `want`: itself where it applies `want`, else its nearest
    /// superclass that does.
    pub open spec fn superclass(&self, class: ClassType, want: Class) -> Option<ClassType> {
        if class.class == want {
            Some(class)
        } else {
            first_of_class(self.ancestors(class.class), want)
        }
    }

    pub fn new(stdlib: Stdlib, classes: Vec<ClassMetadata>) -> (r: AnswersSolver)
        ensures
            r.stdlib == stdlib,
            r.classes == classes,
    {
        AnswersSolver { stdlib, classes }
    }

    fn get_metadata_for_class(&self, cls: &Class) -> (r: Option<&ClassMetadata>)
        ensures
            match r {
                Some(m) => cls.index < self.classes@.len() && *m == self.classes@[cls.index as int],
                None => cls.index >= self.classes@.len(),
            },
    {
        let i = cls.index as usize;
        if i < self.classes.len() {
            Some(&self.classes[i])
        } else {
            None
        }
    }

    /// Whether `want` is `got` or one of its superclasses.
    pub fn has_superclass(&self, got: &Class, want: &Class) -> (r: bool)
        ensures
            r == (*got == *want || first_of_class(self.ancestors(*got), *want).is_some()),
    {
        if got.index == want.index {
            return true;
        }
        let got_type = ClassType { class: *got, targs: 0 };
        self.as_superclass(&got_type, want).is_some()
    }

    /// `class` seen as the class `want`, where `want` is the class or one of its
    /// superclasses.
    pub fn as_superclass(&self, class: &ClassType, want: &Class) -> (r: Option<ClassType>)
        ensures
            r == self.superclass(*class, *want),
    {
        if class.class.index == want.index {
            return Some(*class);
        }
        let ghost all = self.ancestors(class.class);
        let object = self.stdlib.object;
        match self.get_metadata_for_class(&class.class) {
            Some(metadata) => {
                let n = metadata.ancestors.len();
                let mut i: usize = 0;
                assert(all.skip(0) =~= all);
                while i < n
                    invariant
                        n == metadata.ancestors@.len(),
                        i <= n,
                        all == metadata.ancestors@.push(object),
                        all == self.ancestors(class.class),
                        class.class != *want,
                        first_of_class(all, *want) == first_of_class(all.skip(i as int), *want),
                    decreases n - i,
                {
                    assert(all.skip(i as int).drop_first() =~= all.skip(i + 1));
                    assert(all.skip(i as int)[0] == metadata.ancestors@[i as int]);
                    let ancestor = metadata.ancestors[i];
                    if ancestor.class.index == want.index {
                        return Some(ancestor);
                    }
                    i += 1;
                }
                assert(all.skip(n as int) =~= seq![object]);
            },
            None => {},
        }
        assert(first_of_class(seq![object], *want) == (if object.class == *want {
            Some(object)
        } else {
            None
        })) by {
            assert(seq![object].drop_first() =~= Seq::<ClassType>::empty());
            assert(first_of_class(Seq::<ClassType>::empty(), *want).is_none());
        }
        if object.class.index == want.index {
            Some(object)
        } else {
            None
        }
    }

    /// Whether `metaclass` is the metaclass recorded for `cls`.
    pub fn has_metaclass(&self, cls: &Class, metaclass: &ClassType) -> (r: bool)
        ensures
            r == (self.metaclass(*cls) == Some(*metaclass)),
    {
        match self.get_metadata_for_class(cls) {
            Some(metadata) => match metadata.metaclass {
                Some(m) => m.class.index == metaclass.class.index && m.targs == metaclass.targs,
                None => false,
            },
            None => false,
        }
    }
}

/// The questions that deciding the subtype relation may put to the solver, and nothing
/// else of it.
#[derive(Clone, Copy, Debug)]
pub struct TypeOrder<'a>(&'a AnswersSolver);

impl<'a> View for TypeOrder<'a> {
    type V = AnswersSolver;

    /// The solver that answers.
    closed spec fn view(&self) -> AnswersSolver {
        *self.0
    }
}

impl<'a> TypeOrder<'a> {
    pub fn new(solver: &'a AnswersSolver) -> (r: Self)
        ensures
            r@ == *solver,
    {
        TypeOrder(solver)
    }

    /// The solver that answers.
    pub fn solver(&self) -> (r: &'a AnswersSolver)
        ensures
            *r == self@,
    {
        self.0
    }

    pub fn stdlib(&self) -> (r: &Stdlib)
        ensures
            *r == self@.stdlib,
    {
        &self.0.stdlib
    }

    /// Whether `want` is `got` or one of its superclasses.
    pub fn has_superclass(&self, got: &Class, want: &Class) -> (r: bool)
        ensures
            r == (*got == *want || first_of_class(self@.ancestors(*got), *want).is_some()),
    {
        self.0.has_superclass(got, want)
    }

    /// `class` seen as the class `want`, where `want` is the class or one of its
    /// superclasses.
    pub fn as_superclass(&self, class: &ClassType, want: &Class) -> (r: Option<ClassType>)
        ensures
            r == self@.superclass(*class, *want),
    {
        self.0.as_superclass(class, want)
    }

    /// Whether `metaclass` is the metaclass recorded for `cls`.
    pub fn has_metaclass(&self, cls: &Class, metaclass: &ClassType) -> (r: bool)
        ensures
            r == (self@.metaclass(*cls) == Some(*metaclass)),
    {
        self.0.has_metaclass(cls, metaclass)
    }
}

} // verus!
