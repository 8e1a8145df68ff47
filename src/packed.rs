//! Uniform operations on the host's homogeneous arrays.
//!
//! Every element type (bytes, 32/64-bit integers, 32/64-bit floats, 2D and 3D
//! vectors, colors, text) gets the same closed set of operations, written once
//! against [`WireElement`].  Each operation can be switched off by a
//! capability filter; a switched-off operation fails before doing anything.
//! Ranges are half-open `[begin, end)` and are never clamped: a range beyond
//! the array fails.
use vstd::prelude::*;

use crate::values::{Color, Vector2, Vector3};

verus! {

/// An element type that the array operations can move and compare.
pub trait WireElement: Sized {
    /// Whether two elements count as equal for searching and counting.
    spec fn matches(&self, other: &Self) -> bool;

    fn same(&self, other: &Self) -> (r: bool)
        ensures
            r == self.matches(other),
    ;

    fn duplicate(&self) -> (r: Self)
        ensures
            r == *self,
    ;
}

impl WireElement for u8 {
    open spec fn matches(&self, other: &Self) -> bool {
        *self == *other
    }

    fn same(&self, other: &Self) -> (r: bool) {
        *self == *other
    }

    fn duplicate(&self) -> (r: Self) {
        *self
    }
}

impl WireElement for i32 {
    open spec fn matches(&self, other: &Self) -> bool {
        *self == *other
    }

    fn same(&self, other: &Self) -> (r: bool) {
        *self == *other
    }

    fn duplicate(&self) -> (r: Self) {
        *self
    }
}

impl WireElement for i64 {
    open spec fn matches(&self, other: &Self) -> bool {
        *self == *other
    }

    fn same(&self, other: &Self) -> (r: bool) {
        *self == *other
    }

    fn duplicate(&self) -> (r: Self) {
        *self
    }
}

/// A 32-bit float, by its bits.
impl WireElement for u32 {
    open spec fn matches(&self, other: &Self) -> bool {
        *self == *other
    }

    fn same(&self, other: &Self) -> (r: bool) {
        *self == *other
    }

    fn duplicate(&self) -> (r: Self) {
        *self
    }
}

/// A 64-bit float, by its bits.
impl WireElement for u64 {
    open spec fn matches(&self, other: &Self) -> bool {
        *self == *other
    }

    fn same(&self, other: &Self) -> (r: bool) {
        *self == *other
    }

    fn duplicate(&self) -> (r: Self) {
        *self
    }
}

impl WireElement for Vector2 {
    open spec fn matches(&self, other: &Self) -> bool {
        *self == *other
    }

    fn same(&self, other: &Self) -> (r: bool) {
        self.x == other.x && self.y == other.y
    }

    fn duplicate(&self) -> (r: Self) {
        *self
    }
}

impl WireElement for Vector3 {
    open spec fn matches(&self, other: &Self) -> bool {
        *self == *other
    }

    fn same(&self, other: &Self) -> (r: bool) {
        self.x == other.x && self.y == other.y && self.z == other.z
    }

    fn duplicate(&self) -> (r: Self) {
        *self
    }
}

impl WireElement for Color {
    open spec fn matches(&self, other: &Self) -> bool {
        *self == *other
    }

    fn same(&self, other: &Self) -> (r: bool) {
        self.r == other.r && self.g == other.g && self.b == other.b && self.a == other.a
    }

    fn duplicate(&self) -> (r: Self) {
        *self
    }
}

impl WireElement for String {
    open spec fn matches(&self, other: &Self) -> bool {
        self@ == other@
    }

    fn same(&self, other: &Self) -> (r: bool) {
        *self == *other
    }

    fn duplicate(&self) -> (r: Self) {
        self.clone()
    }
}

/// The operations of the family, each with a stable name.
#[derive(PartialEq, Eq, Structural, Clone, Copy, Debug)]
pub enum ArrayOp {
    From,
    To,
    Slice,
    Len,
    IsEmpty,
    Get,
    Contains,
    Count,
    Find,
    Rfind,
    Subarray,
}

#[derive(PartialEq, Eq, Structural, Clone, Copy, Debug)]
pub enum ArrayError {
    /// The operation is switched off by the capability filter.
    Disabled(ArrayOp),
    /// The range `[begin, end)` is not inside the array.
    RangeOutOfBound { begin: u32, end: u32 },
    /// The index is not inside the array.
    IndexOutOfBound(u32),
}

/// The operation that a stable name stands for.
pub open spec fn op_named(s: Seq<char>) -> Option<ArrayOp> {
    if s == "from"@ {
        Some(ArrayOp::From)
    } else if s == "to"@ {
        Some(ArrayOp::To)
    } else if s == "slice"@ {
        Some(ArrayOp::Slice)
    } else if s == "len"@ {
        Some(ArrayOp::Len)
    } else if s == "is-empty"@ {
        Some(ArrayOp::IsEmpty)
    } else if s == "get"@ {
        Some(ArrayOp::Get)
    } else if s == "contains"@ {
        Some(ArrayOp::Contains)
    } else if s == "count"@ {
        Some(ArrayOp::Count)
    } else if s == "find"@ {
        Some(ArrayOp::Find)
    } else if s == "rfind"@ {
        Some(ArrayOp::Rfind)
    } else if s == "subarray"@ {
        Some(ArrayOp::Subarray)
    } else {
        None
    }
}

/// The capability filter of one array type: the operations switched off.
pub struct ArrayAdapter {
    disabled: Vec<ArrayOp>,
}

impl View for ArrayAdapter {
    type V = Set<ArrayOp>;

    closed spec fn view(&self) -> Set<ArrayOp> {
        self.disabled@.to_set()
    }
}

// ---------------------------------------------------------------- models

pub open spec fn range_ok(len: nat, begin: u32, end: u32) -> bool {
    begin <= end && end <= len
}

/// Number of elements of `s` that match `v`.
pub open spec fn count_matches<T: WireElement>(s: Seq<T>, v: T) -> nat
    decreases s.len(),
{
    if s.len() == 0 {
        0
    } else {
        count_matches(s.drop_last(), v) + if s.last().matches(&v) {
            1nat
        } else {
            0nat
        }
    }
}

/// Where a forward search for `v` starting at `start` ends.
pub open spec fn find_spec<T: WireElement>(s: Seq<T>, v: T, start: nat, r: Option<u32>) -> bool {
    match r {
        Some(j) => start <= j < s.len() && s[j as int].matches(&v) && forall|q: int|
            start <= q < j ==> !(#[trigger] s[q]).matches(&v),
        None => forall|q: int| start <= q < s.len() ==> !(#[trigger] s[q]).matches(&v),
    }
}

/// The index a backward search starts from: `from`, or the last index when
/// `from` is absent or beyond the array.
pub open spec fn rfind_start(len: nat, from: Option<u32>) -> int {
    match from {
        Some(f) => if f < len {
            f as int
        } else {
            len - 1
        },
        None => len - 1,
    }
}

/// Where a backward search for `v` from `start` ends.
pub open spec fn rfind_spec<T: WireElement>(s: Seq<T>, v: T, start: int, r: Option<u32>) -> bool {
    match r {
        Some(j) => j <= start && j < s.len() && s[j as int].matches(&v) && forall|q: int|
            j < q <= start ==> !(#[trigger] s[q]).matches(&v),
        None => forall|q: int| 0 <= q <= start && q < s.len() ==> !(#[trigger] s[q]).matches(&v),
    }
}

/// What `from` returns when `disabled` is switched off.
pub open spec fn from_result<T>(disabled: Set<ArrayOp>, val: Seq<T>, r: Result<Vec<T>, ArrayError>) -> bool {
    match r {
        Ok(a) => !disabled.contains(ArrayOp::From) && a@ == val,
        Err(e) => disabled.contains(ArrayOp::From) && e == ArrayError::Disabled(ArrayOp::From),
    }
}

/// What `to` returns.
pub open spec fn to_result<T>(disabled: Set<ArrayOp>, arr: Seq<T>, r: Result<Vec<T>, ArrayError>) -> bool {
    match r {
        Ok(s) => !disabled.contains(ArrayOp::To) && s@ == arr,
        Err(e) => disabled.contains(ArrayOp::To) && e == ArrayError::Disabled(ArrayOp::To),
    }
}

/// What `slice` (`op` is `Slice`) or `subarray` (`op` is `Subarray`) returns.
pub open spec fn range_result<T>(
    disabled: Set<ArrayOp>,
    op: ArrayOp,
    arr: Seq<T>,
    begin: u32,
    end: u32,
    r: Result<Vec<T>, ArrayError>,
) -> bool {
    match r {
        Ok(s) => !disabled.contains(op) && range_ok(arr.len(), begin, end) && s@ == arr.subrange(
            begin as int,
            end as int,
        ),
        Err(e) => if disabled.contains(op) {
            e == ArrayError::Disabled(op)
        } else {
            !range_ok(arr.len(), begin, end) && e == ArrayError::RangeOutOfBound { begin, end }
        },
    }
}

/// What `get` returns.
pub open spec fn get_result<T>(disabled: Set<ArrayOp>, arr: Seq<T>, i: u32, r: Result<T, ArrayError>) -> bool {
    match r {
        Ok(x) => !disabled.contains(ArrayOp::Get) && i < arr.len() && x == arr[i as int],
        Err(e) => if disabled.contains(ArrayOp::Get) {
            e == ArrayError::Disabled(ArrayOp::Get)
        } else {
            i >= arr.len() && e == ArrayError::IndexOutOfBound(i)
        },
    }
}

/// What `len` returns.
pub open spec fn len_result<T>(disabled: Set<ArrayOp>, arr: Seq<T>, r: Result<u32, ArrayError>) -> bool {
    match r {
        Ok(n) => !disabled.contains(ArrayOp::Len) && n == arr.len(),
        Err(e) => disabled.contains(ArrayOp::Len) && e == ArrayError::Disabled(ArrayOp::Len),
    }
}

fn copy_range<T: WireElement>(arr: &Vec<T>, begin: usize, end: usize) -> (r: Vec<T>)
    requires
        begin <= end <= arr@.len(),
    ensures
        r@ == arr@.subrange(begin as int, end as int),
{
    let mut out: Vec<T> = Vec::new();
    let mut j: usize = begin;
    while j < end
        invariant
            begin <= j <= end <= arr@.len(),
            out@ == arr@.subrange(begin as int, j as int),
        decreases end - j,
    {
        out.push(arr[j].duplicate());
        j += 1;
        assert(out@ =~= arr@.subrange(begin as int, j as int));
    }
    out
}

impl ArrayAdapter {
    /// Every operation allowed.
    pub fn new() -> (r: ArrayAdapter)
        ensures
            r@ == Set::<ArrayOp>::empty(),
    {
        let r = ArrayAdapter { disabled: Vec::new() };
        assert(r@ =~= Set::<ArrayOp>::empty());
        r
    }

    pub fn allows(&self, op: ArrayOp) -> (r: bool)
        ensures
            r == !self@.contains(op),
    {
        let mut j: usize = 0;
        while j < self.disabled.len()
            invariant
                j <= self.disabled@.len(),
                forall|q: int| 0 <= q < j ==> self.disabled@[q] != op,
            decreases self.disabled@.len() - j,
        {
            if self.disabled[j] == op {
                assert(self.disabled@.contains(op));
                return false;
            }
            j += 1;
        }
        assert(!self.disabled@.contains(op));
        true
    }

    /// Switches `op` off.
    pub fn disable(&mut self, op: ArrayOp)
        ensures
            final(self)@ == old(self)@.insert(op),
    {
        self.disabled.push(op);
        proof {
            assert forall|o: ArrayOp| self.disabled@.contains(o) <==> (old(self).disabled@.contains(o) || o == op) by {
                if self.disabled@.contains(o) {
                    let q = choose|q: int| 0 <= q < self.disabled@.len() && self.disabled@[q] == o;
                    if q < old(self).disabled@.len() {
                        assert(old(self).disabled@[q] == o);
                    }
                }
                if old(self).disabled@.contains(o) {
                    let q = choose|q: int| 0 <= q < old(self).disabled@.len() && old(self).disabled@[q] == o;
                    assert(self.disabled@[q] == o);
                }
                if o == op {
                    assert(self.disabled@[self.disabled@.len() - 1] == op);
                }
            }
            assert(self@ =~= old(self)@.insert(op));
        }
    }

    /// Switches off the operation with the stable name `name`; returns
    /// whether the name is one.
    pub fn disable_by_name(&mut self, name: &str) -> (r: bool)
        ensures
            r == op_named(name@).is_some(),
            final(self)@ == match op_named(name@) {
                Some(op) => old(self)@.insert(op),
                None => old(self)@,
            },
    {
        match op_by_name(name) {
            Some(op) => {
                self.disable(op);
                true
            },
            None => false,
        }
    }

    /// The array that a guest sequence becomes.
    pub fn from<T: WireElement>(&self, val: Vec<T>) -> (r: Result<Vec<T>, ArrayError>)
        ensures
            from_result(self@, val@, r),
    {
        if !self.allows(ArrayOp::From) {
            return Err(ArrayError::Disabled(ArrayOp::From));
        }
        Ok(val)
    }

    /// The elements of an array, as a guest sequence.
    pub fn to<T: WireElement>(&self, arr: &Vec<T>) -> (r: Result<Vec<T>, ArrayError>)
        ensures
            to_result(self@, arr@, r),
    {
        if !self.allows(ArrayOp::To) {
            return Err(ArrayError::Disabled(ArrayOp::To));
        }
        let r = copy_range(arr, 0, arr.len());
        assert(arr@.subrange(0, arr@.len() as int) =~= arr@);
        Ok(r)
    }

    /// The elements in `[begin, end)`.
    pub fn slice<T: WireElement>(&self, arr: &Vec<T>, begin: u32, end: u32) -> (r: Result<Vec<T>, ArrayError>)
        ensures
            range_result(self@, ArrayOp::Slice, arr@, begin, end, r),
    {
        if !self.allows(ArrayOp::Slice) {
            return Err(ArrayError::Disabled(ArrayOp::Slice));
        }
        if begin > end || end as usize > arr.len() {
            return Err(ArrayError::RangeOutOfBound { begin, end });
        }
        Ok(copy_range(arr, begin as usize, end as usize))
    }

    pub fn len<T: WireElement>(&self, arr: &Vec<T>) -> (r: Result<u32, ArrayError>)
        requires
            arr@.len() <= u32::MAX,
        ensures
            len_result(self@, arr@, r),
    {
        if !self.allows(ArrayOp::Len) {
            return Err(ArrayError::Disabled(ArrayOp::Len));
        }
        Ok(arr.len() as u32)
    }

    pub fn is_empty<T: WireElement>(&self, arr: &Vec<T>) -> (r: Result<bool, ArrayError>)
        ensures
            match r {
                Ok(b) => !self@.contains(ArrayOp::IsEmpty) && b == (arr@.len() == 0),
                Err(e) => self@.contains(ArrayOp::IsEmpty) && e == ArrayError::Disabled(ArrayOp::IsEmpty),
            },
    {
        if !self.allows(ArrayOp::IsEmpty) {
            return Err(ArrayError::Disabled(ArrayOp::IsEmpty));
        }
        Ok(arr.len() == 0)
    }

    /// The element at index `i`.
    pub fn get<T: WireElement>(&self, arr: &Vec<T>, i: u32) -> (r: Result<T, ArrayError>)
        ensures
            get_result(self@, arr@, i, r),
    {
        if !self.allows(ArrayOp::Get) {
            return Err(ArrayError::Disabled(ArrayOp::Get));
        }
        if i as usize >= arr.len() {
            return Err(ArrayError::IndexOutOfBound(i));
        }
        Ok(arr[i as usize].duplicate())
    }

    pub fn contains<T: WireElement>(&self, arr: &Vec<T>, val: T) -> (r: Result<bool, ArrayError>)
        ensures
            match r {
                Ok(b) => !self@.contains(ArrayOp::Contains) && b == exists|q: int|
                    0 <= q < arr@.len() && (#[trigger] arr@[q]).matches(&val),
                Err(e) => self@.contains(ArrayOp::Contains) && e == ArrayError::Disabled(ArrayOp::Contains),
            },
    {
        if !self.allows(ArrayOp::Contains) {
            return Err(ArrayError::Disabled(ArrayOp::Contains));
        }
        let mut j: usize = 0;
        while j < arr.len()
            invariant
                !self@.contains(ArrayOp::Contains),
                j <= arr@.len(),
                forall|q: int| 0 <= q < j ==> !(#[trigger] arr@[q]).matches(&val),
            decreases arr@.len() - j,
        {
            if arr[j].same(&val) {
                assert(arr@[j as int].matches(&val));
                return Ok(true);
            }
            j += 1;
        }
        Ok(false)
    }

    pub fn count<T: WireElement>(&self, arr: &Vec<T>, val: T) -> (r: Result<u32, ArrayError>)
        requires
            arr@.len() <= u32::MAX,
        ensures
            match r {
                Ok(n) => !self@.contains(ArrayOp::Count) && n as nat == count_matches(arr@, val),
                Err(e) => self@.contains(ArrayOp::Count) && e == ArrayError::Disabled(ArrayOp::Count),
            },
    {
        if !self.allows(ArrayOp::Count) {
            return Err(ArrayError::Disabled(ArrayOp::Count));
        }
        let mut n: u32 = 0;
        let mut j: usize = 0;
        while j < arr.len()
            invariant
                !self@.contains(ArrayOp::Count),
                j <= arr@.len() <= u32::MAX,
                n as nat == count_matches(arr@.take(j as int), val),
                n <= j,
            decreases arr@.len() - j,
        {
            assert(arr@.take(j + 1).drop_last() =~= arr@.take(j as int));
            if arr[j].same(&val) {
                n = n + 1;
            }
            j += 1;
        }
        assert(arr@.take(arr@.len() as int) =~= arr@);
        Ok(n)
    }

    /// The first index at or after `from` (default `0`) whose element matches `val`.
    pub fn find<T: WireElement>(&self, arr: &Vec<T>, val: T, from: Option<u32>) -> (r: Result<Option<u32>, ArrayError>)
        requires
            arr@.len() <= u32::MAX,
        ensures
            match r {
                Ok(found) => !self@.contains(ArrayOp::Find) && find_spec(
                    arr@,
                    val,
                    match from {
                        Some(f) => f as nat,
                        None => 0,
                    },
                    found,
                ),
                Err(e) => self@.contains(ArrayOp::Find) && e == ArrayError::Disabled(ArrayOp::Find),
            },
    {
        if !self.allows(ArrayOp::Find) {
            return Err(ArrayError::Disabled(ArrayOp::Find));
        }
        let start: usize = match from {
            Some(f) => f as usize,
            None => 0,
        };
        let mut j: usize = start;
        while j < arr.len()
            invariant
                !self@.contains(ArrayOp::Find),
                start <= j,
                start as nat == match from {
                    Some(f) => f as nat,
                    None => 0,
                },
                arr@.len() <= u32::MAX,
                forall|q: int| start <= q < j && q < arr@.len() ==> !(#[trigger] arr@[q]).matches(&val),
            decreases arr@.len() - j,
        {
            if arr[j].same(&val) {
                return Ok(Some(j as u32));
            }
            j += 1;
        }
        Ok(None)
    }

    /// The last index at or before `from` (default: the last index) whose
    /// element matches `val`.
    pub fn rfind<T: WireElement>(&self, arr: &Vec<T>, val: T, from: Option<u32>) -> (r: Result<Option<u32>, ArrayError>)
        requires
            arr@.len() <= u32::MAX,
        ensures
            match r {
                Ok(found) => !self@.contains(ArrayOp::Rfind) && rfind_spec(
                    arr@,
                    val,
                    rfind_start(arr@.len(), from),
                    found,
                ),
                Err(e) => self@.contains(ArrayOp::Rfind) && e == ArrayError::Disabled(ArrayOp::Rfind),
            },
    {
        if !self.allows(ArrayOp::Rfind) {
            return Err(ArrayError::Disabled(ArrayOp::Rfind));
        }
        let len = arr.len();
        if len == 0 {
            return Ok(None);
        }
        let start: usize = match from {
            Some(f) => if (f as usize) < len {
                f as usize
            } else {
                len - 1
            },
            None => len - 1,
        };
        let mut j: usize = start + 1;
        while j > 0
            invariant
                !self@.contains(ArrayOp::Rfind),
                j <= start + 1,
                start < len == arr@.len() <= u32::MAX,
                start as int == rfind_start(arr@.len(), from),
                forall|q: int| j <= q <= start ==> !(#[trigger] arr@[q]).matches(&val),
            decreases j,
        {
            if arr[j - 1].same(&val) {
                return Ok(Some((j - 1) as u32));
            }
            j -= 1;
        }
        Ok(None)
    }

    /// A new array of the elements in `[begin, end)`.
    pub fn subarray<T: WireElement>(&self, arr: &Vec<T>, begin: u32, end: u32) -> (r: Result<Vec<T>, ArrayError>)
        ensures
            range_result(self@, ArrayOp::Subarray, arr@, begin, end, r),
    {
        if !self.allows(ArrayOp::Subarray) {
            return Err(ArrayError::Disabled(ArrayOp::Subarray));
        }
        if begin > end || end as usize > arr.len() {
            return Err(ArrayError::RangeOutOfBound { begin, end });
        }
        Ok(copy_range(arr, begin as usize, end as usize))
    }
}

fn name_is(name: &str, lit: &str) -> (r: bool)
    ensures
        r == (name@ == lit@),
{
    name.to_owned() == lit.to_owned()
}

/// The operation that a stable name stands for.
pub fn op_by_name(name: &str) -> (r: Option<ArrayOp>)
    ensures
        r == op_named(name@),
{
    proof {
        reveal_strlit("from");
        reveal_strlit("to");
        reveal_strlit("slice");
        reveal_strlit("len");
        reveal_strlit("is-empty");
        reveal_strlit("get");
        reveal_strlit("contains");
        reveal_strlit("count");
        reveal_strlit("find");
        reveal_strlit("rfind");
        reveal_strlit("subarray");
    }
    if name_is(name, "from") {
        Some(ArrayOp::From)
    } else if name_is(name, "to") {
        Some(ArrayOp::To)
    } else if name_is(name, "slice") {
        Some(ArrayOp::Slice)
    } else if name_is(name, "len") {
        Some(ArrayOp::Len)
    } else if name_is(name, "is-empty") {
        Some(ArrayOp::IsEmpty)
    } else if name_is(name, "get") {
        Some(ArrayOp::Get)
    } else if name_is(name, "contains") {
        Some(ArrayOp::Contains)
    } else if name_is(name, "count") {
        Some(ArrayOp::Count)
    } else if name_is(name, "find") {
        Some(ArrayOp::Find)
    } else if name_is(name, "rfind") {
        Some(ArrayOp::Rfind)
    } else if name_is(name, "subarray") {
        Some(ArrayOp::Subarray)
    } else {
        None
    }
}

/// Where both are allowed, `to` on the array that `from` made of a guest
/// sequence gives back that sequence, for every element type.
pub proof fn law_from_to_round_trip<T>(
    disabled: Set<ArrayOp>,
    s: Seq<T>,
    made: Result<Vec<T>, ArrayError>,
    back: Result<Vec<T>, ArrayError>,
)
    requires
        !disabled.contains(ArrayOp::From),
        !disabled.contains(ArrayOp::To),
        from_result(disabled, s, made),
        made is Ok ==> to_result(disabled, made->Ok_0@, back),
    ensures
        made is Ok,
        back is Ok,
        back->Ok_0@ == s,
{
}

/// `slice`, `subarray` and `get` fail exactly outside the array: on an array
/// of five, `[3, 7)` and index `7` fail, and `[2, 5)` is the last three
/// elements.
pub proof fn law_range_bounds<T>(
    disabled: Set<ArrayOp>,
    op: ArrayOp,
    arr: Seq<T>,
    begin: u32,
    end: u32,
    r: Result<Vec<T>, ArrayError>,
    i: u32,
    g: Result<T, ArrayError>,
)
    requires
        op == ArrayOp::Slice || op == ArrayOp::Subarray,
        !disabled.contains(op),
        !disabled.contains(ArrayOp::Get),
        range_result(disabled, op, arr, begin, end, r),
        get_result(disabled, arr, i, g),
    ensures
        r is Ok <==> (begin <= end && end <= arr.len()),
        g is Ok <==> i < arr.len(),
        r is Err ==> r->Err_0 == (ArrayError::RangeOutOfBound { begin, end }),
        g is Err ==> g->Err_0 == ArrayError::IndexOutOfBound(i),
        arr.len() == 5 && begin == 2 && end == 5 ==> r is Ok && r->Ok_0@ =~= seq![arr[2], arr[3], arr[4]],
{
}

/// Switching `get` off makes `get` fail with the capability error while
/// `len` goes on giving the length, unless `len` is off too.
pub proof fn law_disable_is_local<T>(
    disabled: Set<ArrayOp>,
    arr: Seq<T>,
    i: u32,
    g: Result<T, ArrayError>,
    n: Result<u32, ArrayError>,
)
    requires
        !disabled.contains(ArrayOp::Len),
        get_result(disabled.insert(ArrayOp::Get), arr, i, g),
        len_result(disabled.insert(ArrayOp::Get), arr, n),
    ensures
        g == Err::<T, ArrayError>(ArrayError::Disabled(ArrayOp::Get)),
        n is Ok && n->Ok_0 == arr.len(),
{
    assert(disabled.insert(ArrayOp::Get).contains(ArrayOp::Get));
    assert(!disabled.insert(ArrayOp::Get).contains(ArrayOp::Len));
}

} // verus!
