//! The map from the sixteen logical keys to physical key codes.
use vstd::prelude::*;

verus! {

/// Number of logical keys.
pub const KEYBOARD_SIZE: usize = 16;

/// The physical key code of each logical key 0 to F.
pub open spec fn key_map_spec() -> Seq<u16> {
    seq![45u16, 2, 3, 4, 16, 17, 18, 30, 31, 32, 44, 46, 5, 19, 33, 47]
}

/// The physical key code of each logical key, as an array.
pub fn key_map() -> (r: [u16; KEYBOARD_SIZE])
    ensures
        r@ == key_map_spec(),
{
    let r: [u16; KEYBOARD_SIZE] = [45, 2, 3, 4, 16, 17, 18, 30, 31, 32, 44, 46, 5, 19, 33, 47];
    assert(r@ =~= key_map_spec());
    r
}

/// Which logical keys are held, given the physical key codes that are down.
pub fn held_keys(device_keys: &Vec<u16>) -> (r: [bool; KEYBOARD_SIZE])
    ensures
        forall|k: int|
            0 <= k < KEYBOARD_SIZE ==> #[trigger] r@[k] == device_keys@.contains(
                key_map_spec()[k],
            ),
{
    let map = key_map();
    let mut r = [false; KEYBOARD_SIZE];
    let mut k: usize = 0;
    while k < KEYBOARD_SIZE
        invariant
            k <= KEYBOARD_SIZE,
            map@ == key_map_spec(),
            forall|j: int|
                0 <= j < KEYBOARD_SIZE ==> #[trigger] r@[j] == (j < k
                    && device_keys@.contains(key_map_spec()[j])),
        decreases KEYBOARD_SIZE - k,
    {
        let code = map[k];
        let mut found = false;
        let mut i: usize = 0;
        while i < device_keys.len()
            invariant
                i <= device_keys@.len(),
                found == exists|d: int| 0 <= d < i && device_keys@[d] == code,
            decreases device_keys@.len() - i,
        {
            if device_keys[i] == code {
                found = true;
            }
            i += 1;
        }
        r[k] = found;
        k += 1;
    }
    r
}

} // verus!
