//! Data types of the module language: unambiguous types, and types known only
//! up to bounds.

use vstd::prelude::*;
use vstd::std_specs::cmp::PartialEqSpecImpl;

verus! {

/// Represents an unambiguous data type. This is used to represent the lower
/// and upper bounds of a data type as well as the actual type if it is known.
pub enum SpecificDataType {
    Bool,
    Int,
    Float,
    Void,
    DataType,
    Macro,
    Array(usize, Box<SpecificDataType>),
}

impl SpecificDataType {
    /// The array type with the given dimensions, outermost first, over `base`.
    pub open spec fn array_of(dims: Seq<usize>, base: SpecificDataType) -> SpecificDataType
        decreases dims.len(),
    {
        if dims.len() > 0 {
            SpecificDataType::Array(dims[0], Box::new(SpecificDataType::array_of(dims.skip(1), base)))
        } else {
            base
        }
    }

    /// The dimensions of the type, outermost first; none if it is no array.
    pub open spec fn dims(self) -> Seq<usize>
        decreases self,
    {
        match self {
            SpecificDataType::Array(size, element) => seq![size] + element.dims(),
            _ => Seq::empty(),
        }
    }

    /// What the arrays are arrays of.
    pub open spec fn base(self) -> SpecificDataType
        decreases self,
    {
        match self {
            SpecificDataType::Array(_, element) => element.base(),
            other => other,
        }
    }

    /// The type with the same dimensions over another base.
    pub open spec fn rebased(self, new_base: SpecificDataType) -> SpecificDataType
        decreases self,
    {
        match self {
            SpecificDataType::Array(size, element) => SpecificDataType::Array(
                size,
                Box::new(element.rebased(new_base)),
            ),
            _ => new_base,
        }
    }

    /// Whether two types are the same: the same basic type, or arrays of the
    /// same size over equivalent element types.
    pub fn equivalent(&self, other: &Self) -> (same: bool)
        ensures
            same == (*self == *other),
        decreases self,
    {
        match (self, other) {
            (SpecificDataType::Bool, SpecificDataType::Bool) => true,
            (SpecificDataType::Int, SpecificDataType::Int) => true,
            (SpecificDataType::Float, SpecificDataType::Float) => true,
            (SpecificDataType::Void, SpecificDataType::Void) => true,
            (SpecificDataType::DataType, SpecificDataType::DataType) => true,
            (SpecificDataType::Macro, SpecificDataType::Macro) => true,
            (SpecificDataType::Array(my_size, my_etype), SpecificDataType::Array(size, etype)) => {
                *my_size == *size && my_etype.equivalent(etype)
            },
            _ => false,
        }
    }

    fn make_array_from(dims: &[usize], from: usize, base: Self) -> (array: Self)
        requires
            from <= dims@.len(),
        ensures
            array == SpecificDataType::array_of(dims@.skip(from as int), base),
        decreases dims@.len() - from,
    {
        if from < dims.len() {
            proof {
                assert(dims@.skip(from as int).skip(1) =~= dims@.skip(from + 1));
            }
            SpecificDataType::Array(dims[from], Box::new(Self::make_array_from(dims, from + 1, base)))
        } else {
            base
        }
    }

    /// The array type with the given dimensions, outermost first, over `base`.
    pub fn make_array(dims: &[usize], base: Self) -> (array: Self)
        ensures
            array == SpecificDataType::array_of(dims@, base),
    {
        assert(dims@.skip(0) =~= dims@);
        Self::make_array_from(dims, 0, base)
    }

    fn collect_dims_impl(&self, dims: &mut Vec<usize>)
        ensures
            final(dims)@ == old(dims)@ + self.dims(),
        decreases self,
    {
        if let SpecificDataType::Array(size, btype) = self {
            dims.push(*size);
            btype.collect_dims_impl(dims);
            assert(dims@ =~= old(dims)@ + self.dims());
        } else {
            assert(dims@ =~= old(dims)@ + self.dims());
        }
    }

    /// The dimensions of the type, outermost first.
    pub fn collect_dims(&self) -> (dims: Vec<usize>)
        ensures
            dims@ == self.dims(),
    {
        let mut dims: Vec<usize> = Vec::new();
        self.collect_dims_impl(&mut dims);
        assert(dims@ =~= self.dims());
        dims
    }

    /// The type with the same dimensions over another base.
    pub fn with_different_base(&self, new_base: SpecificDataType) -> (rebased: Self)
        ensures
            rebased == self.rebased(new_base),
        decreases self,
    {
        match self {
            SpecificDataType::Array(size, etyp) => SpecificDataType::Array(
                *size,
                Box::new(etyp.with_different_base(new_base)),
            ),
            _ => new_base,
        }
    }
}

impl Clone for SpecificDataType {
    fn clone(&self) -> (copy: Self)
        ensures
            copy == *self,
        decreases self,
    {
        match self {
            SpecificDataType::Bool => SpecificDataType::Bool,
            SpecificDataType::Int => SpecificDataType::Int,
            SpecificDataType::Float => SpecificDataType::Float,
            SpecificDataType::Void => SpecificDataType::Void,
            SpecificDataType::DataType => SpecificDataType::DataType,
            SpecificDataType::Macro => SpecificDataType::Macro,
            SpecificDataType::Array(size, element) => SpecificDataType::Array(
                *size,
                Box::new((&**element).clone()),
            ),
        }
    }
}

impl PartialEq for SpecificDataType {
    fn eq(&self, other: &Self) -> (same: bool) {
        self.equivalent(other)
    }
}

impl PartialEqSpecImpl for SpecificDataType {
    open spec fn obeys_eq_spec() -> bool {
        true
    }

    open spec fn eq_spec(&self, other: &Self) -> bool {
        *self == *other
    }
}

/// An array type has the dimensions it was made with, then those of its base.
pub proof fn lemma_dims_of_array(dims: Seq<usize>, base: SpecificDataType)
    ensures
        SpecificDataType::array_of(dims, base).dims() == dims + base.dims(),
    decreases dims.len(),
{
    if dims.len() > 0 {
        lemma_dims_of_array(dims.skip(1), base);
        assert(seq![dims[0]] + (dims.skip(1) + base.dims()) =~= dims + base.dims());
    } else {
        assert(dims + base.dims() =~= base.dims());
    }
}

/// Rebasing keeps the dimensions and puts the new base, with its own
/// dimensions, at the bottom.
pub proof fn lemma_rebased_dims(typ: SpecificDataType, new_base: SpecificDataType)
    ensures
        typ.rebased(new_base).dims() == typ.dims() + new_base.dims(),
    decreases typ,
{
    match typ {
        SpecificDataType::Array(size, element) => {
            lemma_rebased_dims(*element, new_base);
            assert(seq![size] + (element.dims() + new_base.dims()) =~= typ.dims() + new_base.dims());
        },
        _ => {
            assert(typ.dims() + new_base.dims() =~= new_base.dims());
        },
    }
}

/// The bounds within which a data type may fall.
pub enum Bounds {
    Unbounded,
    Upper(SpecificDataType),
    LowerAndUpper(SpecificDataType, SpecificDataType),
}

impl Bounds {
    /// The lower bound, if there is one.
    pub open spec fn lower(self) -> Option<SpecificDataType> {
        match self {
            Bounds::LowerAndUpper(lower, _) => Some(lower),
            _ => None,
        }
    }

    /// The upper bound, if there is one.
    pub open spec fn upper(self) -> Option<SpecificDataType> {
        match self {
            Bounds::Unbounded => None,
            Bounds::Upper(upper) => Some(upper),
            Bounds::LowerAndUpper(_, upper) => Some(upper),
        }
    }

    /// Bounds from a lower and an upper bound. There is no such thing as a
    /// lower bound without an upper one.
    pub fn from_tuple(bounds: (Option<SpecificDataType>, Option<SpecificDataType>)) -> (made: Self)
        requires
            bounds.0 is Some ==> bounds.1 is Some,
        ensures
            made.lower() == bounds.0,
            made.upper() == bounds.1,
    {
        match bounds {
            (None, None) => Bounds::Unbounded,
            (None, Some(upper)) => Bounds::Upper(upper),
            (Some(lower), Some(upper)) => Bounds::LowerAndUpper(lower, upper),
            (Some(_), None) => vstd::pervasive::unreached(),
        }
    }

    /// The lower and the upper bound, borrowed.
    pub fn as_tuple(&self) -> (bounds: (Option<&SpecificDataType>, Option<&SpecificDataType>))
        ensures
            match bounds.0 {
                Some(lower) => self.lower() == Some(*lower),
                None => self.lower() is None,
            },
            match bounds.1 {
                Some(upper) => self.upper() == Some(*upper),
                None => self.upper() is None,
            },
    {
        match self {
            Bounds::Unbounded => (None, None),
            Bounds::Upper(upper) => (None, Some(upper)),
            Bounds::LowerAndUpper(lower, upper) => (Some(lower), Some(upper)),
        }
    }

    /// The lower and the upper bound.
    pub fn into_tuple(self) -> (bounds: (Option<SpecificDataType>, Option<SpecificDataType>))
        ensures
            bounds.0 == self.lower(),
            bounds.1 == self.upper(),
    {
        match self {
            Bounds::Unbounded => (None, None),
            Bounds::Upper(upper) => (None, Some(upper)),
            Bounds::LowerAndUpper(lower, upper) => (Some(lower), Some(upper)),
        }
    }
}

impl Clone for Bounds {
    fn clone(&self) -> (copy: Self)
        ensures
            copy == *self,
    {
        match self {
            Bounds::Unbounded => Bounds::Unbounded,
            Bounds::Upper(upper) => Bounds::Upper(upper.clone()),
            Bounds::LowerAndUpper(lower, upper) => Bounds::LowerAndUpper(lower.clone(), upper.clone()),
        }
    }
}

/// Represents a data type which may fall within the specified bounds
/// depending on how the program is compiled.
pub struct DataType {
    pub actual_type: Option<SpecificDataType>,
    pub bounds: Bounds,
}

/// `to` is `from` put through `fun`, where there is something to put through.
pub open spec fn mapped_by<F: Fn(SpecificDataType) -> SpecificDataType>(
    fun: F,
    from: Option<SpecificDataType>,
    to: Option<SpecificDataType>,
) -> bool {
    match from {
        Some(typ) => to is Some && fun.ensures((typ,), to->0),
        None => to is None,
    }
}

/// `to` is `from` put through `fun`, where there is something to put through.
pub open spec fn mapped_by_ref<F: Fn(&SpecificDataType) -> SpecificDataType>(
    fun: F,
    from: Option<SpecificDataType>,
    to: Option<SpecificDataType>,
) -> bool {
    match from {
        Some(typ) => to is Some && fun.ensures((&typ,), to->0),
        None => to is None,
    }
}

impl DataType {
    /// A type of which nothing is known.
    pub fn unbounded() -> (typ: Self)
        ensures
            typ.actual_type is None,
            typ.bounds == Bounds::Unbounded,
    {
        Self { actual_type: None, bounds: Bounds::Unbounded }
    }

    /// A type that can only be `only_valid_type`.
    pub fn specific(only_valid_type: SpecificDataType) -> (typ: Self)
        ensures
            typ.actual_type == Some(only_valid_type),
            typ.bounds == Bounds::LowerAndUpper(only_valid_type, only_valid_type),
    {
        Self {
            actual_type: Some(only_valid_type.clone()),
            bounds: Bounds::LowerAndUpper(only_valid_type.clone(), only_valid_type),
        }
    }

    /// Returns this data type with the supplied function applied to its type
    /// bounds and actual type, if they exist.
    pub fn map_ref<F: Fn(&SpecificDataType) -> SpecificDataType>(&self, fun: F) -> (typ: Self)
        requires
            forall|t: &SpecificDataType| fun.requires((t,)),
        ensures
            mapped_by_ref(fun, self.actual_type, typ.actual_type),
            mapped_by_ref(fun, self.bounds.lower(), typ.bounds.lower()),
            mapped_by_ref(fun, self.bounds.upper(), typ.bounds.upper()),
    {
        let actual_type: Option<SpecificDataType> = match &self.actual_type {
            Some(t) => Some(fun(t)),
            None => None,
        };
        let (lower, upper) = self.bounds.as_tuple();
        let lower: Option<SpecificDataType> = match lower {
            Some(t) => Some(fun(t)),
            None => None,
        };
        let upper: Option<SpecificDataType> = match upper {
            Some(t) => Some(fun(t)),
            None => None,
        };
        let bounds: Bounds = Bounds::from_tuple((lower, upper));
        Self { actual_type, bounds }
    }

    /// Returns this data type with the supplied function applied to its type
    /// bounds and actual type, if they exist.
    pub fn map<F: Fn(SpecificDataType) -> SpecificDataType>(self, fun: F) -> (typ: Self)
        requires
            forall|t: SpecificDataType| fun.requires((t,)),
        ensures
            mapped_by(fun, self.actual_type, typ.actual_type),
            mapped_by(fun, self.bounds.lower(), typ.bounds.lower()),
            mapped_by(fun, self.bounds.upper(), typ.bounds.upper()),
    {
        let actual_type: Option<SpecificDataType> = match self.actual_type {
            Some(t) => Some(fun(t)),
            None => None,
        };
        let (lower, upper) = self.bounds.into_tuple();
        let lower: Option<SpecificDataType> = match lower {
            Some(t) => Some(fun(t)),
            None => None,
        };
        let upper: Option<SpecificDataType> = match upper {
            Some(t) => Some(fun(t)),
            None => None,
        };
        let bounds: Bounds = Bounds::from_tuple((lower, upper));
        Self { actual_type, bounds }
    }

    /// What a known type, or a bound, becomes over another base.
    pub open spec fn rebased_option(typ: Option<SpecificDataType>, new_base: SpecificDataType) -> Option<
        SpecificDataType,
    > {
        match typ {
            Some(t) => Some(t.rebased(new_base)),
            None => None,
        }
    }

    /// This data type with its actual type and its bounds over another base.
    pub fn with_different_base(&self, new_base: SpecificDataType) -> (typ: Self)
        ensures
            typ.actual_type == DataType::rebased_option(self.actual_type, new_base),
            typ.bounds.lower() == DataType::rebased_option(self.bounds.lower(), new_base),
            typ.bounds.upper() == DataType::rebased_option(self.bounds.upper(), new_base),
    {
        let base: &SpecificDataType = &new_base;
        let fun = |typ: &SpecificDataType| -> (rebased: SpecificDataType)
            ensures
                rebased == typ.rebased(*base),
            { typ.with_different_base(base.clone()) };
        self.map_ref(fun)
    }
}

impl Clone for DataType {
    fn clone(&self) -> (copy: Self)
        ensures
            copy == *self,
    {
        DataType {
            actual_type: match &self.actual_type {
                Some(t) => Some(t.clone()),
                None => None,
            },
            bounds: self.bounds.clone(),
        }
    }
}

impl From<SpecificDataType> for DataType {
    fn from(specific: SpecificDataType) -> (typ: Self) {
        Self::specific(specific)
    }
}

impl vstd::std_specs::convert::FromSpecImpl<SpecificDataType> for DataType {
    open spec fn obeys_from_spec() -> bool {
        true
    }

    open spec fn from_spec(specific: SpecificDataType) -> Self {
        DataType { actual_type: Some(specific), bounds: Bounds::LowerAndUpper(specific, specific) }
    }
}

} // verus!
