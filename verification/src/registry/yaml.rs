//! Descriptor trees: what a library's descriptor files are read into.
//!
//! A node has a name, a value, and children. Where the value of a node reads
//! as a number, whoever built the tree has put that number beside it.

use crate::scalar::Scalar;
use crate::text::{integer_value, parse_i32, same_text};
use vstd::prelude::*;
use vstd::string::*;
use vstd::utf8::encode_utf8;

verus! {

/// One entry of a descriptor.
#[derive(Debug)]
pub struct YamlNode {
    /// The entry's own name.
    pub name: String,
    /// The names of the entries that lead to this one, and its own.
    pub full_name: String,
    /// The text after the name.
    pub value: String,
    /// The value read as a number, if it reads as one.
    pub number: Option<Scalar>,
    pub children: Vec<YamlNode>,
}

/// What is wrong with a descriptor.
#[derive(Clone, Copy, Debug, PartialEq, Eq, Structural)]
pub enum Problem {
    /// A node lacks a child it has to have.
    MissingChild,
    /// A node has two children of a name that only one may have.
    DuplicateChild,
    /// A value is no whole number.
    NotAnInteger,
    /// A value is no number.
    NotANumber,
    /// A control's default lies outside its range.
    DefaultOutOfRange,
    /// A widget names a control that the module does not have.
    NoSuchControl,
    /// A widget names a complex control that the module does not have.
    NoSuchComplexControl,
    /// A widget is of no known type.
    InvalidWidgetType,
    /// Two widgets drive the same complex control.
    ComplexControlTaken,
    /// Two controls have the same name.
    DuplicateControl,
    /// A complex control has no widget.
    NoWidgetForComplexControl,
    /// A jack is of no known type.
    InvalidJackType,
    /// A jack names an icon that the registry does not have.
    InvalidIconName,
    /// The registry lacks the icon of a jack type.
    MissingTypeIcon,
    /// A value is no version.
    NotAVersion,
    /// A library does not say that it depends on the factory library.
    MissingFactoryDependency,
}

/// A problem, the full name of the node it was found at, and the name or
/// value that is at fault.
#[derive(Debug)]
pub struct DescriptorError {
    pub problem: Problem,
    pub at: String,
    pub what: String,
}

/// A descriptor error as a value.
pub struct Fault {
    pub problem: Problem,
    pub at: Seq<char>,
    pub what: Seq<char>,
}

impl View for DescriptorError {
    type V = Fault;

    open spec fn view(&self) -> Fault {
        Fault { problem: self.problem, at: self.at@, what: self.what@ }
    }
}

impl DescriptorError {
    pub fn create(problem: Problem, at: &str, what: &str) -> (error: DescriptorError)
        ensures
            error@ == (Fault { problem, at: at@, what: what@ }),
    {
        DescriptorError { problem, at: at.to_owned(), what: what.to_owned() }
    }
}

/// Number of nodes among `children` that are called `name`.
pub open spec fn count_named(children: Seq<YamlNode>, name: Seq<char>) -> nat
    decreases children.len(),
{
    if children.len() == 0 {
        0
    } else {
        count_named(children.drop_last(), name) + if children.last().name@ == name {
            1nat
        } else {
            0nat
        }
    }
}

/// `at` is the first node among `children` that is called `name`.
pub open spec fn is_first_named(children: Seq<YamlNode>, name: Seq<char>, at: int) -> bool {
    &&& 0 <= at < children.len()
    &&& children[at].name@ == name
    &&& forall|j: int| 0 <= j < at ==> (#[trigger] children[j]).name@ != name
}

/// The first node among `children` that is called `name`.
pub open spec fn first_named(children: Seq<YamlNode>, name: Seq<char>) -> YamlNode {
    children[choose|at: int| is_first_named(children, name, at)]
}

impl YamlNode {
    /// The node has exactly one child called `name`.
    pub open spec fn has_unique(&self, name: Seq<char>) -> bool {
        count_named(self.children@, name) == 1
    }

    /// The child called `name`.
    pub open spec fn child(&self, name: Seq<char>) -> YamlNode {
        first_named(self.children@, name)
    }

    /// What is wrong when the node has not exactly one child called `name`.
    pub open spec fn child_fault(&self, name: Seq<char>) -> Fault {
        Fault {
            problem: if count_named(self.children@, name) == 0 {
                Problem::MissingChild
            } else {
                Problem::DuplicateChild
            },
            at: self.full_name@,
            what: name,
        }
    }

    /// The one child called `child_name`.
    pub fn unique_child(&self, child_name: &str) -> (found: Result<&YamlNode, DescriptorError>)
        ensures
            found is Ok <==> self.has_unique(child_name@),
            match found {
                Ok(node) => *node == self.child(child_name@),
                Err(error) => error@ == self.child_fault(child_name@),
            },
    {
        let mut count: usize = 0;
        let mut first: usize = 0;
        let mut i: usize = 0;
        assert(self.children@.subrange(0, 0) =~= Seq::<YamlNode>::empty());
        while i < self.children.len()
            invariant
                i <= self.children.len(),
                count <= i,
                count == count_named(self.children@.subrange(0, i as int), child_name@),
                count > 0 ==> is_first_named(self.children@, child_name@, first as int) && first < i,
                count == 0 ==> forall|j: int| 0 <= j < i ==> (#[trigger] self.children@[j]).name@ != child_name@,
            decreases self.children.len() - i,
        {
            proof {
                let upto = self.children@.subrange(0, i + 1);
                assert(upto.drop_last() =~= self.children@.subrange(0, i as int));
                assert(upto.last() == self.children@[i as int]);
            }
            if same_text(self.children[i].name.as_str(), child_name) {
                if count == 0 {
                    first = i;
                }
                count += 1;
            }
            i += 1;
        }
        assert(self.children@.subrange(0, self.children@.len() as int) =~= self.children@);
        if count == 1 {
            proof {
                let w = choose|at: int| is_first_named(self.children@, child_name@, at);
                assert(w == first);
            }
            Ok(&self.children[first])
        } else if count == 0 {
            Err(DescriptorError::create(Problem::MissingChild, self.full_name.as_str(), child_name))
        } else {
            Err(DescriptorError::create(Problem::DuplicateChild, self.full_name.as_str(), child_name))
        }
    }

    /// The whole number the value writes, if it writes one that fits.
    pub open spec fn integer(&self) -> Option<i32> {
        match integer_value(encode_utf8(self.value@)) {
            Some(v) => if i32::MIN <= v <= i32::MAX {
                Some(v as i32)
            } else {
                None
            },
            None => None,
        }
    }

    /// The value as a whole number.
    pub fn i32(&self) -> (read: Result<i32, DescriptorError>)
        ensures
            match read {
                Ok(v) => self.integer() == Some(v),
                Err(error) => self.integer() is None && error@ == (Fault {
                    problem: Problem::NotAnInteger,
                    at: self.full_name@,
                    what: self.value@,
                }),
            },
    {
        match parse_i32(self.value.as_str()) {
            Some(v) => Ok(v),
            None => Err(
                DescriptorError::create(Problem::NotAnInteger, self.full_name.as_str(), self.value.as_str()),
            ),
        }
    }

    /// The value as a number.
    pub fn scalar(&self) -> (read: Result<Scalar, DescriptorError>)
        ensures
            match read {
                Ok(v) => self.number == Some(v),
                Err(error) => self.number is None && error@ == (Fault {
                    problem: Problem::NotANumber,
                    at: self.full_name@,
                    what: self.value@,
                }),
            },
    {
        match self.number {
            Some(v) => Ok(v),
            None => Err(
                DescriptorError::create(Problem::NotANumber, self.full_name.as_str(), self.value.as_str()),
            ),
        }
    }
}

} // verus!
