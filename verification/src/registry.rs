//! Where launchers are looked up in the Windows registry.
use vstd::prelude::*;
use crate::error::{Error, ErrorKind};
use crate::text::str_equal;

verus! {

/// A key under `SOFTWARE`.
pub open spec fn native_key(sub_key: Seq<char>) -> Seq<char> {
    "SOFTWARE\\"@ + sub_key
}

/// A key under the 32-bit view of `SOFTWARE` on a 64-bit system.
pub open spec fn wow64_key(sub_key: Seq<char>) -> Seq<char> {
    "SOFTWARE\\WOW6432Node\\"@ + sub_key
}

/// The `HKEY_LOCAL_MACHINE` keys to try for `sub_key`, in order, on a
/// machine of architecture `arch`: on `x86_64` the 32-bit view first (most
/// launchers are 32-bit) and then the native view; elsewhere the native view.
pub fn local_machine_key_candidates(sub_key: &str, arch: &str) -> (keys: Vec<String>)
    ensures
        arch@ == "x86_64"@ ==> keys@.len() == 2 && keys@[0]@ == wow64_key(sub_key@) && keys@[1]@
            == native_key(sub_key@),
        arch@ != "x86_64"@ ==> keys@.len() == 1 && keys@[0]@ == native_key(sub_key@),
{
    let mut native = String::from_str("SOFTWARE\\");
    native.append(sub_key);
    if str_equal(arch, "x86_64") {
        let mut wow = String::from_str("SOFTWARE\\WOW6432Node\\");
        wow.append(sub_key);
        vec![wow, native]
    } else {
        vec![native]
    }
}

/// The `HKEY_CURRENT_USER` key for `sub_key`.
pub fn current_user_key_path(sub_key: &str) -> (key: String)
    ensures
        key@ == native_key(sub_key@),
{
    let mut key = String::from_str("SOFTWARE\\");
    key.append(sub_key);
    key
}

/// The first success among `attempts`, if any.
pub open spec fn first_success<K>(attempts: Seq<Result<K, String>>) -> Option<K>
    decreases attempts.len(),
{
    if attempts.len() == 0 {
        None
    } else {
        match attempts[0] {
            Ok(k) => Some(k),
            Err(_) => first_success(attempts.skip(1)),
        }
    }
}

/// The outcome of trying keys in order: the first key that opened, or, when
/// none did, a `WinReg` error with the message of the last failure.
pub fn first_opened<K>(attempts: Vec<Result<K, String>>) -> (r: Result<K, Error>)
    requires
        attempts@.len() > 0,
    ensures
        match first_success(attempts@) {
            Some(k) => r == Ok::<K, Error>(k),
            None => r matches Err(e) && e.kind == ErrorKind::WinReg && (attempts@.last() matches Err(
                m,
            ) && e.message@ == m@),
        },
{
    let ghost all = attempts@;
    let mut rest = attempts;
    let mut last_error = String::new();
    let ghost mut i: int = 0;
    assert(all.skip(0) =~= all);
    while rest.len() > 0
        invariant
            0 <= i <= all.len(),
            all == attempts@,
            rest@ == all.skip(i),
            first_success(all) == first_success(all.skip(i)),
            i > 0 ==> (all[i - 1] matches Err(m) && last_error@ == m@),
        decreases rest@.len(),
    {
        let attempt = rest.remove(0);
        assert(attempt == all[i]);
        assert(all.skip(i).skip(1) =~= all.skip(i + 1));
        match attempt {
            Ok(k) => {
                assert(first_success(all) == Some(k));
                return Ok(k);
            },
            Err(m) => {
                last_error = m;
            },
        }
        proof {
            i = i + 1;
        }
    }
    assert(i == all.len());
    Err(Error::new(ErrorKind::WinReg, last_error))
}

} // verus!
