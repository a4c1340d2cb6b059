//! The argument bindings that instrumented code reports to the symbolic
//! executor: which argument slot gets which 64-bit value, for integer
//! arguments, slice ranges and pointers.
use vstd::prelude::*;

verus! {

/// One argument value reported to the symbolic executor: slot `index` holds `value`.
pub struct ArgBinding {
    pub index: u64,
    pub value: u64,
}

/// A value that can be reported as one 64-bit argument.
pub trait ArgU64Value {
    /// The reported value, if the value can be reported.
    spec fn spec_arg_u64(&self) -> Option<u64>;

    /// The reported value, if the value can be reported.
    fn as_arg_u64(&self) -> (r: Option<u64>)
        ensures
            r == self.spec_arg_u64(),
    ;
}

/// A value that denotes a half-open range `[start, end)` of slice indices.
pub trait ArgRustRangeValue {
    /// The range, for a receiver slice of length `len`, if it can be reported.
    spec fn spec_rustrange(&self, len: u64) -> Option<(u64, u64)>;

    /// Return a half-open range `[start, end)` in slice-index units.
    ///
    /// `len` is the receiver slice length, used for open-ended range forms
    /// such as `start..` and `..`.
    fn as_rustrange_u64(&self, len: u64) -> (r: Option<(u64, u64)>)
        ensures
            r == self.spec_rustrange(len),
    ;
}

impl ArgU64Value for usize {
    open spec fn spec_arg_u64(&self) -> Option<u64> {
        Some(*self as u64)
    }

    fn as_arg_u64(&self) -> (r: Option<u64>) {
        Some(*self as u64)
    }
}

impl ArgU64Value for u8 {
    open spec fn spec_arg_u64(&self) -> Option<u64> {
        Some(*self as u64)
    }

    fn as_arg_u64(&self) -> (r: Option<u64>) {
        Some(*self as u64)
    }
}

impl ArgU64Value for u16 {
    open spec fn spec_arg_u64(&self) -> Option<u64> {
        Some(*self as u64)
    }

    fn as_arg_u64(&self) -> (r: Option<u64>) {
        Some(*self as u64)
    }
}

impl ArgU64Value for u32 {
    open spec fn spec_arg_u64(&self) -> Option<u64> {
        Some(*self as u64)
    }

    fn as_arg_u64(&self) -> (r: Option<u64>) {
        Some(*self as u64)
    }
}

impl ArgU64Value for u64 {
    open spec fn spec_arg_u64(&self) -> Option<u64> {
        Some(*self)
    }

    fn as_arg_u64(&self) -> (r: Option<u64>) {
        Some(*self)
    }
}

impl ArgU64Value for isize {
    open spec fn spec_arg_u64(&self) -> Option<u64> {
        if *self >= 0 { Some(*self as u64) } else { None }
    }

    fn as_arg_u64(&self) -> (r: Option<u64>) {
        if *self >= 0 { Some(*self as u64) } else { None }
    }
}

impl ArgU64Value for i8 {
    open spec fn spec_arg_u64(&self) -> Option<u64> {
        if *self >= 0 { Some(*self as u64) } else { None }
    }

    fn as_arg_u64(&self) -> (r: Option<u64>) {
        if *self >= 0 { Some(*self as u64) } else { None }
    }
}

impl ArgU64Value for i16 {
    open spec fn spec_arg_u64(&self) -> Option<u64> {
        if *self >= 0 { Some(*self as u64) } else { None }
    }

    fn as_arg_u64(&self) -> (r: Option<u64>) {
        if *self >= 0 { Some(*self as u64) } else { None }
    }
}

impl ArgU64Value for i32 {
    open spec fn spec_arg_u64(&self) -> Option<u64> {
        if *self >= 0 { Some(*self as u64) } else { None }
    }

    fn as_arg_u64(&self) -> (r: Option<u64>) {
        if *self >= 0 { Some(*self as u64) } else { None }
    }
}

impl ArgU64Value for i64 {
    open spec fn spec_arg_u64(&self) -> Option<u64> {
        if *self >= 0 { Some(*self as u64) } else { None }
    }

    fn as_arg_u64(&self) -> (r: Option<u64>) {
        if *self >= 0 { Some(*self as u64) } else { None }
    }
}

/// A single index `i` is the range `[i, i + 1)` (`[i, u64::MAX)` at the top).
impl ArgRustRangeValue for usize {
    open spec fn spec_rustrange(&self, len: u64) -> Option<(u64, u64)> {
        let start = *self as u64;
        Some((start, if start < u64::MAX { (start + 1) as u64 } else { u64::MAX }))
    }

    fn as_rustrange_u64(&self, _len: u64) -> (r: Option<(u64, u64)>) {
        let start = *self as u64;
        Some((start, start.checked_add(1).unwrap_or(u64::MAX)))
    }
}

impl ArgU64Value for core::ops::Range<usize> {
    open spec fn spec_arg_u64(&self) -> Option<u64> {
        Some(self.start as u64)
    }

    fn as_arg_u64(&self) -> (r: Option<u64>) {
        Some(self.start as u64)
    }
}

impl ArgRustRangeValue for core::ops::Range<usize> {
    open spec fn spec_rustrange(&self, len: u64) -> Option<(u64, u64)> {
        Some((self.start as u64, self.end as u64))
    }

    fn as_rustrange_u64(&self, _len: u64) -> (r: Option<(u64, u64)>) {
        Some((self.start as u64, self.end as u64))
    }
}

/// The forms of a slice-index argument: a single index and the six kinds of
/// range expression (`a..b`, `a..`, `..b`, `..`, `a..=b`, `..=b`).
pub enum IndexRange {
    Index(usize),
    Range { start: usize, end: usize },
    From { start: usize },
    To { end: usize },
    Full,
    Inclusive { start: usize, end: usize },
    ToInclusive { end: usize },
}

impl ArgU64Value for IndexRange {
    /// The first index the argument denotes.
    open spec fn spec_arg_u64(&self) -> Option<u64> {
        match *self {
            IndexRange::Index(i) => Some(i as u64),
            IndexRange::Range { start, .. } => Some(start as u64),
            IndexRange::From { start } => Some(start as u64),
            IndexRange::To { .. } => Some(0),
            IndexRange::Full => Some(0),
            IndexRange::Inclusive { start, .. } => Some(start as u64),
            IndexRange::ToInclusive { .. } => Some(0),
        }
    }

    fn as_arg_u64(&self) -> (r: Option<u64>) {
        match self {
            IndexRange::Index(i) => Some(*i as u64),
            IndexRange::Range { start, .. } => Some(*start as u64),
            IndexRange::From { start } => Some(*start as u64),
            IndexRange::To { .. } => Some(0),
            IndexRange::Full => Some(0),
            IndexRange::Inclusive { start, .. } => Some(*start as u64),
            IndexRange::ToInclusive { .. } => Some(0),
        }
    }
}

impl ArgRustRangeValue for IndexRange {
    /// The half-open range the argument denotes; open ends are `0` and `len`,
    /// and an inclusive end at `u64::MAX` has no half-open form.
    open spec fn spec_rustrange(&self, len: u64) -> Option<(u64, u64)> {
        match *self {
            IndexRange::Index(i) => {
                let start = i as u64;
                Some((start, if start < u64::MAX { (start + 1) as u64 } else { u64::MAX }))
            },
            IndexRange::Range { start, end } => Some((start as u64, end as u64)),
            IndexRange::From { start } => Some((start as u64, len)),
            IndexRange::To { end } => Some((0, end as u64)),
            IndexRange::Full => Some((0, len)),
            IndexRange::Inclusive { start, end } => if (end as u64) < u64::MAX {
                Some((start as u64, (end as u64 + 1) as u64))
            } else {
                None
            },
            IndexRange::ToInclusive { end } => if (end as u64) < u64::MAX {
                Some((0, (end as u64 + 1) as u64))
            } else {
                None
            },
        }
    }

    fn as_rustrange_u64(&self, len: u64) -> (r: Option<(u64, u64)>) {
        match self {
            IndexRange::Index(i) => i.as_rustrange_u64(len),
            IndexRange::Range { start, end } => Some((*start as u64, *end as u64)),
            IndexRange::From { start } => Some((*start as u64, len)),
            IndexRange::To { end } => Some((0, *end as u64)),
            IndexRange::Full => Some((0, len)),
            IndexRange::Inclusive { start, end } => {
                let s = *start as u64;
                let e = (*end as u64).checked_add(1)?;
                Some((s, e))
            },
            IndexRange::ToInclusive { end } => Some((0, (*end as u64).checked_add(1)?)),
        }
    }
}

/// An integer argument is reported exactly when it is not negative, and then
/// as its own value: a negative signed value (such as the count of
/// `ptr.offset(-1)`) is never bound, and no value is reported as a different
/// number.
pub proof fn law_integer_args_report_their_own_value(
    a: usize,
    b: u8,
    c: u16,
    d: u32,
    e: u64,
    f: isize,
    g: i8,
    h: i16,
    i: i32,
    j: i64,
)
    ensures
        a.spec_arg_u64() matches Some(x) && x as int == a as int,
        b.spec_arg_u64() matches Some(x) && x as int == b as int,
        c.spec_arg_u64() matches Some(x) && x as int == c as int,
        d.spec_arg_u64() matches Some(x) && x as int == d as int,
        e.spec_arg_u64() matches Some(x) && x as int == e as int,
        f.spec_arg_u64() is Some <==> f >= 0,
        f.spec_arg_u64() matches Some(x) ==> x as int == f as int,
        g.spec_arg_u64() is Some <==> g >= 0,
        g.spec_arg_u64() matches Some(x) ==> x as int == g as int,
        h.spec_arg_u64() is Some <==> h >= 0,
        h.spec_arg_u64() matches Some(x) ==> x as int == h as int,
        i.spec_arg_u64() is Some <==> i >= 0,
        i.spec_arg_u64() matches Some(x) ==> x as int == i as int,
        j.spec_arg_u64() is Some <==> j >= 0,
        j.spec_arg_u64() matches Some(x) ==> x as int == j as int,
{
}

/// The binding of argument slot `index` to `value`, when `value` can be reported.
pub fn bind_arg_u64_value<T: ArgU64Value + ?Sized>(index: u64, value: &T) -> (r: Option<ArgBinding>)
    ensures
        match value.spec_arg_u64() {
            Some(v) => r == Some(ArgBinding { index, value: v }),
            None => r is None,
        },
{
    match value.as_arg_u64() {
        Some(v) => Some(ArgBinding { index, value: v }),
        None => None,
    }
}

/// The bindings of a range argument: its start in slot `start_index` and its
/// end in the next slot, when the range can be reported; none otherwise.
pub fn bind_arg_rustrange_value<T: ArgRustRangeValue + ?Sized>(
    start_index: u64,
    value: &T,
    len: u64,
) -> (r: Vec<ArgBinding>)
    requires
        value.spec_rustrange(len) is Some ==> start_index < u64::MAX,
    ensures
        match value.spec_rustrange(len) {
            Some((s, e)) => r@ == seq![
                ArgBinding { index: start_index, value: s },
                ArgBinding { index: (start_index + 1) as u64, value: e },
            ],
            None => r@.len() == 0,
        },
{
    let mut out: Vec<ArgBinding> = Vec::new();
    match value.as_rustrange_u64(len) {
        Some((start, end)) => {
            out.push(ArgBinding { index: start_index, value: start });
            out.push(ArgBinding { index: start_index + 1, value: end });
            proof {
                assert(out@ =~= seq![
                    ArgBinding { index: start_index, value: start },
                    ArgBinding { index: (start_index + 1) as u64, value: end },
                ]);
            }
        },
        None => {},
    }
    out
}

/// A pointer argument, reported by its address.
pub trait ArgPtrValue {
    /// The reported address.
    spec fn spec_arg_ptr_u64(&self) -> u64;

    /// The reported address.
    fn as_arg_ptr_u64(self) -> (r: u64)
        ensures
            r == self.spec_arg_ptr_u64(),
    ;
}

/// An address held as an integer, as a pointer converts to one.
impl ArgPtrValue for usize {
    open spec fn spec_arg_ptr_u64(&self) -> u64 {
        *self as u64
    }

    fn as_arg_ptr_u64(self) -> (r: u64) {
        self as u64
    }
}

/// The binding of argument slot `index` to a pointer's address.
pub fn bind_arg_ptr_value<T: ArgPtrValue>(index: u64, value: T) -> (r: ArgBinding)
    ensures
        r == (ArgBinding { index, value: value.spec_arg_ptr_u64() }),
{
    ArgBinding { index, value: value.as_arg_ptr_u64() }
}

} // verus!
