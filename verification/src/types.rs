//! Core data types: the possibly-invalid value wrapper, mutable string
//! wrappers, and the constraint descriptor threaded through generation and
//! mutation calls.

use vstd::prelude::*;
use vstd::string::StrSliceExecFns;

verus! {

/// Represents an enum that can contain unsafe values.
///
/// A fuzzer must be able to hold and propagate discriminant values that do
/// not correspond to any declared variant of a closed enumeration `T`.
/// `Valid` holds a well-formed instance of the semantic type; `Invalid`
/// holds an arbitrary backing value of the primitive representation `I`.
#[derive(Debug, Clone, Copy)]
pub enum UnsafeEnum<T, I> {
    Valid(T),
    Invalid(I),
}

impl<T: Default, I> Default for UnsafeEnum<T, I> {
    /// The default wrapper holds the default value of the semantic type.
    fn default() -> (r: Self)
        ensures
            r matches UnsafeEnum::Valid(_),
    {
        UnsafeEnum::Valid(T::default())
    }
}

/// Conversion to the raw backing representation `P`.
pub trait ToPrimitive<P> {
    /// The backing value, as a mathematical function of `self`.
    spec fn prim_spec(&self) -> P;

    /// Yields the backing value regardless of semantic validity.
    fn to_primitive(&self) -> (r: P)
        ensures
            r == self.prim_spec(),
    ;
}

impl<E, T> ToPrimitive<T> for UnsafeEnum<E, T> where E: ToPrimitive<T>, T: Copy {
    open spec fn prim_spec(&self) -> T {
        match self {
            UnsafeEnum::Valid(e) => e.prim_spec(),
            UnsafeEnum::Invalid(n) => *n,
        }
    }

    fn to_primitive(&self) -> (r: T) {
        match self {
            UnsafeEnum::Valid(e) => e.to_primitive(),
            UnsafeEnum::Invalid(n) => *n,
        }
    }
}

impl ToPrimitive<u8> for u8 {
    open spec fn prim_spec(&self) -> u8 {
        *self
    }

    fn to_primitive(&self) -> u8 {
        *self
    }
}

impl ToPrimitive<u16> for u16 {
    open spec fn prim_spec(&self) -> u16 {
        *self
    }

    fn to_primitive(&self) -> u16 {
        *self
    }
}

impl ToPrimitive<u32> for u32 {
    open spec fn prim_spec(&self) -> u32 {
        *self
    }

    fn to_primitive(&self) -> u32 {
        *self
    }
}

impl ToPrimitive<u64> for u64 {
    open spec fn prim_spec(&self) -> u64 {
        *self
    }

    fn to_primitive(&self) -> u64 {
        *self
    }
}

/// Represents a UTF-8 character.
#[derive(Debug, Clone, Copy)]
pub struct Utf8Char(pub char);

/// Represents an ASCII character.
#[derive(Debug, Clone, Copy)]
pub struct AsciiChar(pub char);

/// Wrapper around `String` that provides mutation-friendly access to the
/// individual UTF-8 characters.
#[derive(Debug, Clone)]
pub struct Utf8String {
    pub inner: Vec<Utf8Char>,
}

impl View for Utf8String {
    type V = Seq<char>;

    open spec fn view(&self) -> Seq<char> {
        self.inner@.map(|i: int, c: Utf8Char| c.0)
    }
}

impl Default for Utf8String {
    /// The default string is empty.
    fn default() -> (r: Self)
        ensures
            r@ == Seq::<char>::empty(),
    {
        let r = Utf8String { inner: Vec::new() };
        proof {
            assert(r@ =~= Seq::<char>::empty());
        }
        r
    }
}

impl Utf8String {
    /// Builds the wrapper from the characters of `s`, in order.
    pub fn new(s: &str) -> (r: Self)
        ensures
            r@ == s@,
    {
        let n = s.unicode_len();
        let mut inner: Vec<Utf8Char> = Vec::new();
        let mut i: usize = 0;
        while i < n
            invariant
                i <= n,
                n == s@.len(),
                inner@.len() == i,
                forall|k: int| 0 <= k < i ==> inner@[k].0 == s@[k],
            decreases n - i,
        {
            inner.push(Utf8Char(s.get_char(i)));
            i = i + 1;
        }
        let r = Utf8String { inner };
        proof {
            assert(r@ =~= s@);
        }
        r
    }
}

/// Wrapper around `String` that provides mutation-friendly access to the
/// individual characters of an ASCII-encoded string.
#[derive(Debug, Clone)]
pub struct AsciiString {
    pub inner: Vec<AsciiChar>,
}

impl View for AsciiString {
    type V = Seq<char>;

    open spec fn view(&self) -> Seq<char> {
        self.inner@.map(|i: int, c: AsciiChar| c.0)
    }
}

impl Default for AsciiString {
    /// The default string is empty.
    fn default() -> (r: Self)
        ensures
            r@ == Seq::<char>::empty(),
    {
        let r = AsciiString { inner: Vec::new() };
        proof {
            assert(r@ =~= Seq::<char>::empty());
        }
        r
    }
}

impl AsciiString {
    /// Builds the wrapper from the characters of `s`, in order.
    pub fn new(s: &str) -> (r: Self)
        ensures
            r@ == s@,
    {
        let n = s.unicode_len();
        let mut inner: Vec<AsciiChar> = Vec::new();
        let mut i: usize = 0;
        while i < n
            invariant
                i <= n,
                n == s@.len(),
                inner@.len() == i,
                forall|k: int| 0 <= k < i ==> inner@[k].0 == s@[k],
            decreases n - i,
        {
            inner.push(AsciiChar(s.get_char(i)));
            i = i + 1;
        }
        let r = AsciiString { inner };
        proof {
            assert(r@ =~= s@);
        }
        r
    }
}

/// A fatal configuration error, surfaced at construction time rather than
/// deferred into a draw or a generation call.
#[derive(Debug, PartialEq, Eq, Structural, Clone, Copy)]
pub enum ConfigError {
    /// A selector's weights total zero: no outcome could ever be drawn.
    ZeroTotalWeight,
    /// A selector's weights total more than a machine word can hold.
    TotalWeightOverflow,
    /// A declared bound pair does not satisfy `min < max`, or exceeds what
    /// the bounded field can hold.
    BadBounds,
    /// Declared minimum sizes total more than the engine can account for.
    SizeOverflow,
    /// A fixup rule points at a field that does not exist or that cannot
    /// hold a recomputed length.
    BadRule,
}

/// Which direction to weigh ranges towards (min bound, upper bound, or
/// none). `Unbiased` implies uniform sampling within bounds.
#[derive(Debug, PartialEq, Eq, Structural, Clone, Copy)]
pub enum Weighted {
    Unbiased,
    Min,
    Max,
}

impl Default for Weighted {
    /// The default weighting is uniform.
    fn default() -> (r: Self)
        ensures
            r == Weighted::Unbiased,
    {
        Weighted::Unbiased
    }
}

/// Constraints that generation and mutation should try to respect.
///
/// `min` is the contextual lower bound, `max` the contextual upper bound
/// (not inclusive), `weighted` the direction to bias range sampling
/// towards, and `max_size` the remaining-byte budget the produced value
/// has to work with.
#[derive(Debug, Clone)]
pub struct Constraints<T> {
    pub min: Option<T>,
    pub max: Option<T>,
    pub weighted: Weighted,
    pub max_size: Option<usize>,
}

impl<T> Default for Constraints<T> {
    /// The default constraint carries no bound, no bias, and no budget.
    fn default() -> (r: Self)
        ensures
            r.min is None,
            r.max is None,
            r.weighted == Weighted::Unbiased,
            r.max_size is None,
    {
        Constraints { min: None, max: None, weighted: Weighted::Unbiased, max_size: None }
    }
}

} // verus!
