use vstd::prelude::*;

verus! {

/// The extension that `std::path::Path::extension` finds in `name`.
pub uninterp spec fn path_extension(name: Seq<char>) -> Option<Seq<char>>;

/// Relies on `std::path::Path::extension`: what follows the last dot of the
/// file name (none when the name has no dot, or its only dot leads); the
/// result depends on the text alone.
#[verifier::external_body]
fn file_extension(name: &str) -> (r: Option<String>)
    ensures
        match r {
            Some(e) => path_extension(name@) == Some(e@),
            None => path_extension(name@) is None,
        },
{
    std::path::Path::new(name).extension().and_then(|e| e.to_str()).map(|e| e.to_string())
}

/// The MIME type guessed from an extension.
pub open spec fn mime_spec(ext: Option<Seq<char>>) -> Seq<char> {
    match ext {
        Some(e) => if e == "png"@ {
            "image/png"@
        } else if e == "jpg"@ || e == "jpeg"@ {
            "image/jpeg"@
        } else if e == "pdf"@ {
            "application/pdf"@
        } else if e == "txt"@ {
            "text/plain"@
        } else {
            "application/octet-stream"@
        },
        None => "application/octet-stream"@,
    }
}

/// The MIME type for a file with extension `ext`.
pub fn mime_for_extension(ext: Option<&str>) -> (r: String)
    ensures
        r@ == mime_spec(
            match ext {
                Some(e) => Some(e@),
                None => None,
            },
        ),
{
    let m = match ext {
        Some(e) => {
            let e = e.to_owned();
            if e == "png".to_owned() {
                "image/png"
            } else if e == "jpg".to_owned() || e == "jpeg".to_owned() {
                "image/jpeg"
            } else if e == "pdf".to_owned() {
                "application/pdf"
            } else if e == "txt".to_owned() {
                "text/plain"
            } else {
                "application/octet-stream"
            }
        },
        None => "application/octet-stream",
    };
    m.to_owned()
}

/// The MIME type to upload a file under when the caller names none.
pub fn guess_mime(filename: &str) -> (r: String)
    ensures
        r@ == mime_spec(path_extension(filename@)),
{
    match file_extension(filename) {
        Some(e) => mime_for_extension(Some(e.as_str())),
        None => mime_for_extension(None),
    }
}

/// What to do after one look at a file's processing status.
#[derive(PartialEq, Eq, Structural, Debug, Clone, Copy)]
pub enum PollStep {
    /// Processing succeeded.
    Ready,
    /// Processing failed on the server.
    Failed,
    /// This was the last attempt allowed.
    TimedOut,
    /// Wait, then look again.
    Wait,
}

/// The step after attempt `attempt` (counting from zero) of `max_attempts`
/// saw `status`.
pub open spec fn poll_spec(status: Seq<char>, attempt: int, max_attempts: int) -> PollStep {
    if status == "SUCCESS"@ {
        PollStep::Ready
    } else if status == "ERROR"@ {
        PollStep::Failed
    } else if attempt + 1 >= max_attempts {
        PollStep::TimedOut
    } else {
        PollStep::Wait
    }
}

/// Decides what follows one look at a file's processing status.
pub fn poll_step(status: &String, attempt: usize, max_attempts: usize) -> (r: PollStep)
    ensures
        r == poll_spec(status@, attempt as int, max_attempts as int),
{
    if *status == "SUCCESS".to_owned() {
        PollStep::Ready
    } else if *status == "ERROR".to_owned() {
        PollStep::Failed
    } else if attempt >= max_attempts || max_attempts - attempt <= 1 {
        PollStep::TimedOut
    } else {
        PollStep::Wait
    }
}

} // verus!
