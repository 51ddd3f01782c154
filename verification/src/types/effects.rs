use vstd::prelude::*;

verus! {

/// Represents the effects that an expression may have during evaluation.
///
/// An expression can fail at runtime (`!` in type signatures) and can depend
/// on its runtime context (`~` in type signatures). Effects only ever grow as
/// they propagate through an expression.
#[derive(Debug, Clone, Copy, PartialEq, Eq, Structural)]
pub struct Effects {
    /// Whether the computation can fail at runtime.
    pub can_error: bool,
    /// Whether the computation depends on runtime context.
    pub is_impure: bool,
}

/// The effect markers of an effect set, as written after a type.
pub open spec fn effect_marker(can_error: bool, is_impure: bool) -> Seq<char> {
    if can_error && is_impure {
        seq!['~', '!']
    } else if can_error {
        seq!['!']
    } else if is_impure {
        seq!['~']
    } else {
        Seq::empty()
    }
}

/// The union of two effect sets: each effect that either has.
pub open spec fn joined(a: Effects, b: Effects) -> Effects {
    Effects { can_error: a.can_error || b.can_error, is_impure: a.is_impure || b.is_impure }
}

impl Effects {
    /// No effects: a pure, total computation.
    pub fn total() -> (r: Effects)
        ensures
            r.can_error == false,
            r.is_impure == false,
    {
        Effects { can_error: false, is_impure: false }
    }

    /// Can fail, but is otherwise pure.
    pub fn error() -> (r: Effects)
        ensures
            r.can_error == true,
            r.is_impure == false,
    {
        Effects { can_error: true, is_impure: false }
    }

    /// Impure but cannot fail.
    pub fn impure() -> (r: Effects)
        ensures
            r.can_error == false,
            r.is_impure == true,
    {
        Effects { can_error: false, is_impure: true }
    }

    /// Both impure and can fail.
    pub fn both() -> (r: Effects)
        ensures
            r.can_error == true,
            r.is_impure == true,
    {
        Effects { can_error: true, is_impure: true }
    }

    /// Combines two effect sets, taking the union of their effects.
    pub fn union(self, other: Self) -> (r: Self)
        ensures
            r.can_error == (self.can_error || other.can_error),
            r.is_impure == (self.is_impure || other.is_impure),
            r == joined(self, other),
    {
        Effects {
            can_error: self.can_error || other.can_error,
            is_impure: self.is_impure || other.is_impure,
        }
    }

    /// Returns `true` if this is a pure, total computation.
    pub fn is_total(&self) -> (r: bool)
        ensures
            r == (!self.can_error && !self.is_impure),
    {
        *self == Effects::total()
    }

    /// Formats the effect markers: `""` when total, `"!"` when it can fail,
    /// `"~"` when impure, `"~!"` when both.
    pub fn to_string(&self) -> (r: &'static str)
        ensures
            r@ == effect_marker(self.can_error, self.is_impure),
    {
        proof {
            reveal_strlit("");
            reveal_strlit("!");
            reveal_strlit("~");
            reveal_strlit("~!");
        }
        match (self.can_error, self.is_impure) {
            (false, false) => "",
            (true, false) => "!",
            (false, true) => "~",
            (true, true) => "~!",
        }
    }
}

/// Effects only grow as they propagate: the union keeps every effect of
/// either side (an impure or failing part makes the whole impure or
/// failing), the total set changes nothing, and the order and grouping of
/// unions do not matter.
pub proof fn law_union(a: Effects, b: Effects, c: Effects)
    ensures
        joined(a, b) == joined(b, a),
        joined(joined(a, b), c) == joined(a, joined(b, c)),
        joined(a, a) == a,
        joined(a, Effects { can_error: false, is_impure: false }) == a,
        a.is_impure ==> joined(a, b).is_impure,
        a.can_error ==> joined(a, b).can_error,
{
}

/// The markers say exactly which effects there are: `!` when the value can
/// fail, `~` when it is impure, nothing else, and `~` first when both.
pub proof fn law_effect_markers(can_error: bool, is_impure: bool)
    ensures
        ({
            let m = effect_marker(can_error, is_impure);
            &&& m.contains('!') == can_error
            &&& m.contains('~') == is_impure
            &&& m.len() == (if can_error { 1nat } else { 0nat }) + (if is_impure { 1nat } else { 0nat })
            &&& can_error && is_impure ==> m[0] == '~' && m[1] == '!'
        }),
{
    let m = effect_marker(can_error, is_impure);
    if can_error && is_impure {
        assert(m[0] == '~' && m[1] == '!');
    } else if can_error {
        assert(m[0] == '!');
    } else if is_impure {
        assert(m[0] == '~');
    }
}

} // verus!
