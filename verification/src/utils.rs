//! Small parsing helpers for operator-supplied values.

use vstd::prelude::*;
use vstd::string::*;

use crate::errors::{ErrorKind, FisherError, FisherResult};

verus! {

/// Splits an operator-supplied `KEY=VALUE` pair at the first `=`. A string
/// without `=` is rejected; the key is everything before the first `=` and
/// the value everything after it.
pub fn parse_env(env: &str) -> (r: FisherResult<(String, String)>)
    ensures
        r is Ok <==> env@.contains('='),
        r is Ok ==> (exists|i: int|
            0 <= i < env@.len() && #[trigger] env@[i] == '=' && (forall|j: int|
                0 <= j < i ==> env@[j] != '=') && r->Ok_0.0@ == env@.subrange(0, i)
                && r->Ok_0.1@ == env@.subrange(i + 1, env@.len() as int)),
        r is Err ==> r->Err_0.kind is InvalidHookConfig,
{
    let n = env.unicode_len();
    let mut i: usize = 0;
    while i < n
        invariant
            n == env@.len(),
            i <= n,
            forall|j: int| 0 <= j < i ==> env@[j] != '=',
        decreases n - i,
    {
        if env.get_char(i) == '=' {
            let key = env.substring_char(0, i).to_owned();
            let value = env.substring_char(i + 1, n).to_owned();
            proof {
                assert(env@[i as int] == '=');
                assert(env@.contains('='));
            }
            return Ok((key, value));
        }
        i = i + 1;
    }
    proof {
        assert(!env@.contains('=')) by {
            if env@.contains('=') {
                let w = choose|w: int| 0 <= w < env@.len() && env@[w] == '=';
                assert(env@[w] != '=');
            }
        }
    }
    Err(FisherError::new(ErrorKind::InvalidHookConfig(env.to_owned())))
}

} // verus!
