//! What a command leaves behind.

use vstd::prelude::*;

verus! {

/// What a command prints, where, and its exit status.
pub struct Report {
    /// On standard output.
    pub out: String,
    /// On standard error.
    pub err: String,
    /// The exit status.
    pub code: u8,
}

/// What a command prints, where, and its exit status, in terms of texts.
#[verifier::ext_equal]
pub struct Said {
    pub out: Seq<char>,
    pub err: Seq<char>,
    pub code: u8,
}

impl View for Report {
    type V = Said;

    open spec fn view(&self) -> Said {
        Said { out: self.out@, err: self.err@, code: self.code }
    }
}

/// Success, with a text on standard output.
pub open spec fn success(out: Seq<char>) -> Said {
    Said { out, err: seq![], code: 0 }
}

/// Failure, with a text on standard error.
pub open spec fn failure(err: Seq<char>) -> Said {
    Said { out: seq![], err, code: 1 }
}

/// Failure, with one line on standard error that says why arguments are refused.
pub open spec fn refusal(message: Seq<char>) -> Said {
    failure(message + "\n"@)
}

impl Report {
    /// Success, with a text on standard output.
    pub fn success(out: String) -> (r: Report)
        ensures
            r@ == success(out@),
    {
        Report { out, err: String::new(), code: 0 }
    }

    /// Failure, with a text on standard error.
    pub fn failure(err: String) -> (r: Report)
        ensures
            r@ == failure(err@),
    {
        Report { out: String::new(), err, code: 1 }
    }

    /// Failure, with one line on standard error that says why arguments are
    /// refused.
    pub fn refusal(message: String) -> (r: Report)
        ensures
            r@ == refusal(message@),
    {
        let mut err = message;
        err.append("\n");
        Report::failure(err)
    }
}

/// A report is what is printed in either place and the status; a success prints
/// nothing as an error and has the status zero, a failure prints nothing else and
/// has the status one, and a refusal is a failure with one line.
pub proof fn law_reports_are_plain(r: Report, text: Seq<char>)
    ensures
        r@.out == r.out@,
        r@.err == r.err@,
        r@.code == r.code,
        success(text).out == text && success(text).err.len() == 0 && success(text).code == 0,
        failure(text).err == text && failure(text).out.len() == 0 && failure(text).code == 1,
        refusal(text).err == text.push('\n') && refusal(text).out.len() == 0 && refusal(text).code
            == 1,
{
    reveal_strlit("\n");
    assert(text + "\n"@ =~= text.push('\n'));
}

} // verus!
