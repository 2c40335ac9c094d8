use vstd::prelude::*;

use crate::errors::Error;

verus! {

/// Length of a 32-byte key once its zero padding is stripped from the
/// end.
pub open spec fn stripped_len(s: Seq<u8>) -> nat
    decreases s.len(),
{
    if s.len() == 0 {
        0nat
    } else if s.last() == 0 {
        stripped_len(s.drop_last())
    } else {
        s.len()
    }
}

/// Encode a class or attribute name into the fixed 32-byte key the
/// protocol uses: the name's bytes followed by zero padding. A name
/// longer than the key width is rejected, never truncated.
pub fn string_to_bytes32(input: &Vec<u8>) -> (r: Result<Vec<u8>, Error>)
    ensures
        match r {
            Ok(k) => {
                &&& input@.len() <= 32
                &&& k@.len() == 32
                &&& k@.subrange(0, input@.len() as int) == input@
                &&& forall|i: int| input@.len() <= i < 32 ==> k@[i] == 0u8
            },
            Err(Error::MalformedKey) => input@.len() > 32,
            Err(_) => false,
        },
{
    if input.len() > 32 {
        return Err(Error::MalformedKey);
    }
    let mut k: Vec<u8> = Vec::new();
    let mut i: usize = 0;
    while i < input.len()
        invariant
            i <= input@.len() <= 32,
            k@ == input@.subrange(0, i as int),
        decreases input@.len() - i,
    {
        k.push(input[i]);
        proof {
            assert(input@.subrange(0, i + 1) =~= input@.subrange(0, i as int).push(
                input@[i as int],
            ));
        }
        i = i + 1;
    }
    proof {
        assert(input@.subrange(0, input@.len() as int) =~= input@);
    }
    while k.len() < 32
        invariant
            input@.len() <= k@.len() <= 32,
            k@.subrange(0, input@.len() as int) == input@,
            forall|j: int| input@.len() <= j < k@.len() ==> k@[j] == 0u8,
        decreases 32 - k@.len(),
    {
        k.push(0);
        proof {
            assert(k@.subrange(0, input@.len() as int) =~= input@);
        }
    }
    Ok(k)
}

/// Strip the zero padding from a 32-byte key, recovering the name's
/// bytes. (Turning those bytes back into text is the caller's concern.)
pub fn bytes32_to_string(input: &Vec<u8>) -> (r: Vec<u8>)
    ensures
        r@ == input@.subrange(0, stripped_len(input@) as int),
{
    let mut n: usize = input.len();
    proof {
        assert(input@.subrange(0, input@.len() as int) =~= input@);
    }
    while n > 0 && input[n - 1] == 0
        invariant
            n <= input@.len(),
            stripped_len(input@) == stripped_len(input@.subrange(0, n as int)),
        decreases n,
    {
        proof {
            assert(input@.subrange(0, n as int).drop_last() =~= input@.subrange(0, n - 1));
        }
        n = n - 1;
    }
    proof {
        if n == 0 {
            assert(stripped_len(input@.subrange(0, 0)) == 0);
        }
        assert(stripped_len(input@) == n);
    }
    let mut r: Vec<u8> = Vec::new();
    let mut i: usize = 0;
    while i < n
        invariant
            i <= n <= input@.len(),
            r@ == input@.subrange(0, i as int),
        decreases n - i,
    {
        r.push(input[i]);
        proof {
            assert(input@.subrange(0, i + 1) =~= input@.subrange(0, i as int).push(
                input@[i as int],
            ));
        }
        i = i + 1;
    }
    r
}

} // verus!
