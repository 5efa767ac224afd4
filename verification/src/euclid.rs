use vstd::prelude::*;

verus! {

/// `i32::div_euclid` returns the quotient `q` of Euclidean division, the
/// integer with `self == q * rhs + r` and `0 <= r < |rhs|`; it panics when
/// `rhs` is zero or when the quotient overflows (`i32::MIN / -1`).
pub assume_specification[ <i32>::div_euclid ](x: i32, rhs: i32) -> (q: i32)
    requires
        rhs != 0,
        !(x == i32::MIN && rhs == -1),
    ensures
        q as int == x as int / rhs as int,
;

/// `i32::rem_euclid` returns the remainder `r` of Euclidean division, with
/// `0 <= r < |rhs|`; it panics when `rhs` is zero or when the division
/// overflows (`i32::MIN % -1`).
pub assume_specification[ <i32>::rem_euclid ](x: i32, rhs: i32) -> (r: i32)
    requires
        rhs != 0,
        !(x == i32::MIN && rhs == -1),
    ensures
        r as int == x as int % rhs as int,
;

} // verus!
