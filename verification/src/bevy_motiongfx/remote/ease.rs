//! The eases that have a name, and curves.
use crate::action::{CubicBezier, Ease, EaseFn};
use crate::bevy_motiongfx::remote::fault::{Fault, OpFault};
use crate::text::same_text;
use vstd::prelude::*;
use vstd::string::StringExecFns;

verus! {

/// How many eases have a name.
pub const EASE_COUNT: u64 = 28;

/// The name of the ease with the number.
pub open spec fn ease_table(id: int) -> Seq<char> {
    if id == 0 {
        "linear"@
    } else if id == 1 {
        "sine_in"@
    } else if id == 2 {
        "sine_out"@
    } else if id == 3 {
        "sine_in_out"@
    } else if id == 4 {
        "quad_in"@
    } else if id == 5 {
        "quad_out"@
    } else if id == 6 {
        "quad_in_out"@
    } else if id == 7 {
        "cubic_in"@
    } else if id == 8 {
        "cubic_out"@
    } else if id == 9 {
        "cubic_in_out"@
    } else if id == 10 {
        "quart_in"@
    } else if id == 11 {
        "quart_out"@
    } else if id == 12 {
        "quart_in_out"@
    } else if id == 13 {
        "quint_in"@
    } else if id == 14 {
        "quint_out"@
    } else if id == 15 {
        "quint_in_out"@
    } else if id == 16 {
        "expo_in"@
    } else if id == 17 {
        "expo_out"@
    } else if id == 18 {
        "expo_in_out"@
    } else if id == 19 {
        "circ_in"@
    } else if id == 20 {
        "circ_out"@
    } else if id == 21 {
        "circ_in_out"@
    } else if id == 22 {
        "back_in"@
    } else if id == 23 {
        "back_out"@
    } else if id == 24 {
        "back_in_out"@
    } else if id == 25 {
        "elastic_in"@
    } else if id == 26 {
        "elastic_out"@
    } else {
        "elastic_in_out"@
    }
}

/// The name of the ease with the number.
fn ease_table_name(id: u64) -> (name: &'static str)
    ensures
        name@ == ease_table(id as int),
{
    if id == 0 {
        "linear"
    } else if id == 1 {
        "sine_in"
    } else if id == 2 {
        "sine_out"
    } else if id == 3 {
        "sine_in_out"
    } else if id == 4 {
        "quad_in"
    } else if id == 5 {
        "quad_out"
    } else if id == 6 {
        "quad_in_out"
    } else if id == 7 {
        "cubic_in"
    } else if id == 8 {
        "cubic_out"
    } else if id == 9 {
        "cubic_in_out"
    } else if id == 10 {
        "quart_in"
    } else if id == 11 {
        "quart_out"
    } else if id == 12 {
        "quart_in_out"
    } else if id == 13 {
        "quint_in"
    } else if id == 14 {
        "quint_out"
    } else if id == 15 {
        "quint_in_out"
    } else if id == 16 {
        "expo_in"
    } else if id == 17 {
        "expo_out"
    } else if id == 18 {
        "expo_in_out"
    } else if id == 19 {
        "circ_in"
    } else if id == 20 {
        "circ_out"
    } else if id == 21 {
        "circ_in_out"
    } else if id == 22 {
        "back_in"
    } else if id == 23 {
        "back_out"
    } else if id == 24 {
        "back_in_out"
    } else if id == 25 {
        "elastic_in"
    } else if id == 26 {
        "elastic_out"
    } else {
        "elastic_in_out"
    }
}

/// The name of a built-in easing function, if it is one.
pub fn ease_name(f: EaseFn) -> (name: Option<&'static str>)
    ensures
        name is Some <==> f.id < EASE_COUNT,
        name is Some ==> name->0@ == ease_table(f.id as int),
{
    if f.id < EASE_COUNT {
        Some(ease_table_name(f.id))
    } else {
        None
    }
}

/// Whether the ease is the first one with the name.
pub open spec fn is_named(name: Seq<char>, id: int) -> bool {
    &&& 0 <= id < EASE_COUNT
    &&& ease_table(id) == name
    &&& forall|other: int| 0 <= other < id ==> #[trigger] ease_table(other) != name
}

/// Whether no ease has the name.
pub open spec fn is_unnamed(name: Seq<char>) -> bool {
    forall|id: int| 0 <= id < EASE_COUNT ==> #[trigger] ease_table(id) != name
}

/// The easing function for a named built-in ease.
pub fn ease_fn_from_name(name: &str) -> (f: Option<EaseFn>)
    ensures
        f is None <==> is_unnamed(name@),
        f is Some ==> is_named(name@, f->0.id as int),
{
    let mut id: u64 = 0;
    while id < EASE_COUNT
        invariant
            id <= EASE_COUNT,
            forall|other: int| 0 <= other < id ==> #[trigger] ease_table(other) != name@,
        decreases EASE_COUNT - id,
    {
        if same_text(ease_table_name(id), name) {
            assert(ease_table(id as int) == name@);
            return Some(EaseFn { id });
        }
        id += 1;
    }
    None
}

/// An `ease` request parameter: a name, a parameterised curve, or the reason
/// why it is neither.
#[derive(Debug)]
pub enum EaseParam {
    Named(String),
    Curve(CubicBezier),
    Unreadable(String),
}

impl EaseParam {
    /// A copy of the parameter.
    pub fn copy(&self) -> (copy: Self)
        ensures
            copy == *self,
    {
        match self {
            EaseParam::Named(name) => EaseParam::Named(name.clone()),
            EaseParam::Curve(curve) => EaseParam::Curve(*curve),
            EaseParam::Unreadable(reason) => EaseParam::Unreadable(reason.clone()),
        }
    }
}

/// Whether the bits are those of a single-precision number from zero to one.
pub open spec fn in_unit_range(bits: u32) -> bool {
    bits <= 0x3F80_0000 || bits == 0x8000_0000
}

/// Whether a curve starts and ends inside of the unit interval.
pub open spec fn curve_in_range(curve: CubicBezier) -> bool {
    in_unit_range(curve.x1) && in_unit_range(curve.x2)
}

/// Whether the parameter names the ease, or is refused for the reason.
pub open spec fn ease_resolves(param: EaseParam, result: Result<Ease, Fault>) -> bool {
    match param {
        EaseParam::Unreadable(reason) => result == Err::<Ease, Fault>(
            Fault::Op(OpFault::EaseUnreadable { reason }),
        ),
        EaseParam::Named(name) => match result {
            Ok(Ease::Fn(f)) => is_named(name@, f.id as int),
            Ok(_) => false,
            Err(fault) => is_unnamed(name@) && fault == Fault::Op(OpFault::UnknownEase { name }),
        },
        EaseParam::Curve(curve) => result == if curve_in_range(curve) {
            Ok(Ease::CubicBezier(curve))
        } else {
            Err(Fault::Op(OpFault::CurveOutOfRange))
        },
    }
}

/// Resolve an ease parameter to an ease.
pub fn resolve_ease(p: &EaseParam) -> (result: Result<Ease, Fault>)
    ensures
        ease_resolves(*p, result),
{
    match p {
        EaseParam::Named(name) => match ease_fn_from_name(name.as_str()) {
            Some(f) => Ok(Ease::Fn(f)),
            None => Err(Fault::Op(OpFault::UnknownEase { name: name.clone() })),
        },
        EaseParam::Curve(curve) => {
            let x1_in = curve.x1 <= 0x3F80_0000 || curve.x1 == 0x8000_0000;
            let x2_in = curve.x2 <= 0x3F80_0000 || curve.x2 == 0x8000_0000;
            if !x1_in || !x2_in {
                Err(Fault::Op(OpFault::CurveOutOfRange))
            } else {
                Ok(Ease::CubicBezier(*curve))
            }
        },
        EaseParam::Unreadable(reason) => Err(
            Fault::Op(OpFault::EaseUnreadable { reason: reason.clone() }),
        ),
    }
}

/// Whether an absent parameter gives no ease, and another one its ease.
pub open spec fn op_ease_resolves(
    param: Option<EaseParam>,
    result: Result<Option<Ease>, Fault>,
) -> bool {
    match param {
        None => result == Ok::<Option<Ease>, Fault>(None),
        Some(param) => match result {
            Ok(Some(ease)) => ease_resolves(param, Ok(ease)),
            Ok(None) => false,
            Err(fault) => ease_resolves(param, Err(fault)),
        },
    }
}

/// Resolve an optional ease (name or curve).
pub fn parse_op_ease(ease: &Option<EaseParam>) -> (result: Result<Option<Ease>, Fault>)
    ensures
        op_ease_resolves(*ease, result),
{
    match ease {
        None => Ok(None),
        Some(param) => match resolve_ease(param) {
            Ok(ease) => Ok(Some(ease)),
            Err(fault) => Err(fault),
        },
    }
}

/// Whether the parameter is the ease as it travels.
pub open spec fn is_ease_param(ease: Ease, param: EaseParam) -> bool {
    match ease {
        Ease::Fn(f) => param matches EaseParam::Named(name) && name@ == if f.id < EASE_COUNT {
            ease_table(f.id as int)
        } else {
            "custom"@
        },
        Ease::CubicBezier(curve) => param == EaseParam::Curve(curve),
    }
}

/// An ease as it travels.
pub fn ease_to_json(ease: Ease) -> (param: EaseParam)
    ensures
        is_ease_param(ease, param),
{
    match ease {
        Ease::Fn(f) => EaseParam::Named(
            match ease_name(f) {
                Some(name) => String::from_str(name),
                None => String::from_str("custom"),
            },
        ),
        Ease::CubicBezier(curve) => EaseParam::Curve(curve),
    }
}

/// No two eases share a name, and none is called "custom".
pub proof fn ease_names_differ(a: int, b: int)
    requires
        0 <= a < EASE_COUNT,
        0 <= b < EASE_COUNT,
        ease_table(a) == ease_table(b),
    ensures
        a == b,
        ease_table(a) != "custom"@,
{
    reveal_strlit("linear");
    reveal_strlit("sine_in");
    reveal_strlit("sine_out");
    reveal_strlit("sine_in_out");
    reveal_strlit("quad_in");
    reveal_strlit("quad_out");
    reveal_strlit("quad_in_out");
    reveal_strlit("cubic_in");
    reveal_strlit("cubic_out");
    reveal_strlit("cubic_in_out");
    reveal_strlit("quart_in");
    reveal_strlit("quart_out");
    reveal_strlit("quart_in_out");
    reveal_strlit("quint_in");
    reveal_strlit("quint_out");
    reveal_strlit("quint_in_out");
    reveal_strlit("expo_in");
    reveal_strlit("expo_out");
    reveal_strlit("expo_in_out");
    reveal_strlit("circ_in");
    reveal_strlit("circ_out");
    reveal_strlit("circ_in_out");
    reveal_strlit("back_in");
    reveal_strlit("back_out");
    reveal_strlit("back_in_out");
    reveal_strlit("elastic_in");
    reveal_strlit("elastic_out");
    reveal_strlit("elastic_in_out");
    reveal_strlit("custom");
    // The length and the fourth character tell the names apart.
    assert(ease_table(0).len() == 6 && ease_table(0)[3] == 'e');
    assert(ease_table(1).len() == 7 && ease_table(1)[3] == 'e');
    assert(ease_table(2).len() == 8 && ease_table(2)[3] == 'e');
    assert(ease_table(3).len() == 11 && ease_table(3)[3] == 'e');
    assert(ease_table(4).len() == 7 && ease_table(4)[3] == 'd');
    assert(ease_table(5).len() == 8 && ease_table(5)[3] == 'd');
    assert(ease_table(6).len() == 11 && ease_table(6)[3] == 'd');
    assert(ease_table(7).len() == 8 && ease_table(7)[3] == 'i');
    assert(ease_table(8).len() == 9 && ease_table(8)[3] == 'i');
    assert(ease_table(9).len() == 12 && ease_table(9)[3] == 'i');
    assert(ease_table(10).len() == 8 && ease_table(10)[3] == 'r');
    assert(ease_table(11).len() == 9 && ease_table(11)[3] == 'r');
    assert(ease_table(12).len() == 12 && ease_table(12)[3] == 'r');
    assert(ease_table(13).len() == 8 && ease_table(13)[3] == 'n');
    assert(ease_table(14).len() == 9 && ease_table(14)[3] == 'n');
    assert(ease_table(15).len() == 12 && ease_table(15)[3] == 'n');
    assert(ease_table(16).len() == 7 && ease_table(16)[3] == 'o');
    assert(ease_table(17).len() == 8 && ease_table(17)[3] == 'o');
    assert(ease_table(18).len() == 11 && ease_table(18)[3] == 'o');
    assert(ease_table(19).len() == 7 && ease_table(19)[3] == 'c');
    assert(ease_table(20).len() == 8 && ease_table(20)[3] == 'c');
    assert(ease_table(21).len() == 11 && ease_table(21)[3] == 'c');
    assert(ease_table(22).len() == 7 && ease_table(22)[3] == 'k');
    assert(ease_table(23).len() == 8 && ease_table(23)[3] == 'k');
    assert(ease_table(24).len() == 11 && ease_table(24)[3] == 'k');
    assert(ease_table(25).len() == 10 && ease_table(25)[3] == 's');
    assert(ease_table(26).len() == 11 && ease_table(26)[3] == 's');
    assert(ease_table(27).len() == 14 && ease_table(27)[3] == 's');
    assert("custom"@.len() == 6 && "custom"@[3] == 't');
}

/// An ease that was sent and read back is the same ease, if it has a name or
/// is a curve that starts and ends inside of the unit interval.
pub proof fn ease_survives_the_wire(ease: Ease, param: EaseParam, result: Result<Ease, Fault>)
    requires
        is_ease_param(ease, param),
        ease_resolves(param, result),
        ease matches Ease::Fn(f) ==> f.id < EASE_COUNT,
        ease matches Ease::CubicBezier(curve) ==> curve_in_range(curve),
    ensures
        result == Ok::<Ease, Fault>(ease),
{
    match ease {
        Ease::Fn(f) => {
            let name = ease_table(f.id as int);
            match result {
                Ok(Ease::Fn(g)) => {
                    ease_names_differ(f.id as int, g.id as int);
                },
                _ => {
                    assert(ease_table(f.id as int) == name);
                },
            }
        },
        Ease::CubicBezier(_) => {},
    }
}

/// An ease without a name does not come back: what is sent for it names no
/// ease.
pub proof fn custom_ease_is_unnamed(f: EaseFn, param: EaseParam)
    requires
        is_ease_param(Ease::Fn(f), param),
        f.id >= EASE_COUNT,
    ensures
        param matches EaseParam::Named(name) && is_unnamed(name@),
{
    assert forall|id: int| 0 <= id < EASE_COUNT implies #[trigger] ease_table(id) != "custom"@ by {
        ease_names_differ(id, id);
    }
}

} // verus!
