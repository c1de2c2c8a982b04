//! The prize wheel: a fixed ring of cash values, one of which is drawn for
//! each turn.

use crate::random::pick;
use vstd::prelude::*;

verus! {

/// The cash values on the wheel, panel by panel.
pub open spec fn wheel_panels() -> Seq<i32> {
    seq![
        2500i32,
        600,
        700,
        600,
        650,
        500,
        700,
        600,
        550,
        500,
        600,
        650,
        700,
        800,
        500,
        650,
        500,
        900,
    ]
}

/// Whether `value` stands on a panel of the wheel.
pub open spec fn is_wheel_value(value: i32) -> bool {
    wheel_panels().contains(value)
}

/// Every value on the wheel lies between 500 and 2500.
pub proof fn lemma_wheel_value_range(value: i32)
    requires
        is_wheel_value(value),
    ensures
        500 <= value <= 2500,
{
    let i = choose|i: int| 0 <= i < wheel_panels().len() && wheel_panels()[i] == value;
    assert(wheel_panels().len() == 18);
}

/// The panels of the wheel.
pub fn wheel() -> (panels: [i32; 18])
    ensures
        panels@ == wheel_panels(),
{
    let panels: [i32; 18] = [
        2500,
        600,
        700,
        600,
        650,
        500,
        700,
        600,
        550,
        500,
        600,
        650,
        700,
        800,
        500,
        650,
        500,
        900,
    ];
    assert(panels@ =~= wheel_panels());
    panels
}

/// Tells whether `value` stands on a panel of the wheel.
pub fn is_on_wheel(value: i32) -> (found: bool)
    ensures
        found == is_wheel_value(value),
{
    let panels = wheel();
    let mut i: usize = 0;
    while i < 18
        invariant
            i <= 18,
            panels@ == wheel_panels(),
            forall|j: int| 0 <= j < i ==> wheel_panels()[j] != value,
        decreases 18 - i,
    {
        if panels[i] == value {
            assert(wheel_panels()[i as int] == value);
            return true;
        }
        i += 1;
    }
    false
}

/// Spins the wheel: the value of a panel drawn at random.
pub fn spin_wheel() -> (value: i32)
    ensures
        is_wheel_value(value),
{
    let panels = wheel();
    let mut rng = rand::thread_rng();
    let picked = pick(&mut rng, panels.as_slice());
    *picked.unwrap()
}

} // verus!
