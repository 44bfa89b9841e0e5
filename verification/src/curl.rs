//! What a run of curl (the HTTP client the Inkdrop and news features start
//! as a subprocess) comes to.

use vstd::prelude::*;
use crate::text;

verus! {

/// A failed curl run.
///
/// `exit`: `Some` where curl exited with that non-zero code (7 = no
/// connection, 22 = HTTP error, 28 = time-out, ...); `None` where it could
/// not be started or its input or output failed.
#[derive(Debug)]
pub struct CurlError {
    pub exit: Option<i32>,
    pub detail: String,
}

/// An integer in decimal, with a leading `-` when it is negative.
pub open spec fn signed_decimal(i: int) -> Seq<char> {
    if i < 0 {
        seq!['-'] + text::decimal((-i) as nat)
    } else {
        text::decimal(i as nat)
    }
}

/// `curl exit ` and the exit code.
pub open spec fn exit_detail(code: i32) -> Seq<char> {
    "curl exit "@ + signed_decimal(code as int)
}

/// What a curl run that finished comes to: its standard output (nothing
/// read counts as empty) where it succeeded, else the error that carries
/// its exit code.
pub fn curl_outcome(stdout: Option<String>, successful: bool, exit_status: i32) -> (r: Result<
    String,
    CurlError,
>)
    ensures
        successful ==> (r matches Ok(out) && out@ == (match stdout {
            Some(s) => s@,
            None => Seq::<char>::empty(),
        })),
        !successful ==> (r matches Err(e) && e.exit == Some(exit_status) && e.detail@
            == exit_detail(exit_status)),
{
    if successful {
        match stdout {
            Some(s) => Ok(s),
            None => Ok(String::new()),
        }
    } else {
        let mut d = text::chars_of("curl exit ");
        if exit_status < 0 {
            d.push('-');
            let magnitude: u64 = (-(exit_status as i64)) as u64;
            text::push_decimal(&mut d, magnitude);
        } else {
            text::push_decimal(&mut d, exit_status as u64);
        }
        assert(d@ =~= exit_detail(exit_status));
        Err(CurlError { exit: Some(exit_status), detail: text::string_of(&d) })
    }
}

} // verus!
