//! Picking the icon name to show: bundled icons come with fallbacks from the
//! desktop's icon theme.

use vstd::prelude::*;

verus! {

/// The first of `names` the theme has, if any.
pub open spec fn first_available(available: Seq<bool>) -> Option<int>
    decreases available.len(),
{
    if available.len() == 0 {
        None
    } else if available[0] {
        Some(0)
    } else {
        match first_available(available.drop_first()) {
            Some(i) => Some(i + 1),
            None => None,
        }
    }
}

/// The name to show for an icon named `name` with `fallbacks`: its own name
/// when the theme has it, else the first fallback the theme has, else its
/// own name. `available[0]` tells whether the theme has `name`,
/// `available[k + 1]` whether it has `fallbacks[k]`.
pub fn resolve_icon_name(name: &'static str, fallbacks: &Vec<&'static str>, available: &Vec<bool>) -> (resolved: &'static str)
    requires
        available@.len() == fallbacks@.len() + 1,
    ensures
        resolved == match first_available(available@) {
            Some(i) => if i == 0 {
                name
            } else {
                fallbacks@[i - 1]
            },
            None => name,
        },
{
    let mut k: usize = 0;
    proof {
        assert(available@.skip(0) =~= available@);
    }
    while k < available.len()
        invariant
            k <= available@.len() == fallbacks@.len() + 1,
            forall|m: int| 0 <= m < k ==> !available@[m],
            first_available(available@) == match first_available(available@.skip(k as int)) {
                Some(i) => Some(i + k),
                None => None,
            },
        decreases available@.len() - k,
    {
        if available[k] {
            proof {
                assert(available@.skip(k as int)[0]);
            }
            return if k == 0 {
                name
            } else {
                fallbacks[k - 1]
            };
        }
        proof {
            assert(available@.skip(k as int).drop_first() =~= available@.skip(k + 1));
        }
        k += 1;
    }
    proof {
        assert(available@.skip(k as int).len() == 0);
    }
    name
}

} // verus!
