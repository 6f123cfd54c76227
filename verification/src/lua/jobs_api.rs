//! Queuing jobs from scripts.
use vstd::prelude::*;

use crate::text;

verus! {

/// Who calls from a script, with the client and the key of the session if it has
/// them, so that a job can act with the caller's credentials.
#[derive(Clone, Debug)]
pub struct JobsCaller {
    pub did: String,
    pub api_client_id: Option<String>,
    pub dpop_key_id: Option<String>,
}

/// A lower-case letter or a digit.
pub open spec fn is_word_char(c: char) -> bool {
    'a' <= c <= 'z' || '0' <= c <= '9'
}

/// Whether a text names a type of job: from 1 to 128 lower-case letters, digits
/// and `._-`, of which the first is a letter or a digit.
pub open spec fn is_job_type(value: Seq<char>) -> bool {
    &&& 1 <= value.len() <= 128
    &&& is_word_char(value[0])
    &&& forall|i: int|
        0 <= i < value.len() ==> is_word_char(#[trigger] value[i]) || value[i] == '.' || value[i] == '_'
            || value[i] == '-'
}

fn word_char(c: char) -> (yes: bool)
    ensures
        yes == is_word_char(c),
{
    ('a' <= c && c <= 'z') || ('0' <= c && c <= '9')
}

/// Whether a text names a type of job.
pub fn job_type_is_valid(value: &str) -> (yes: bool)
    ensures
        yes == is_job_type(value@),
{
    let chars = text::chars_of(value);
    if chars.len() == 0 || chars.len() > 128 || !word_char(chars[0]) {
        return false;
    }
    for i in 0..chars.len()
        invariant
            chars@ == value@,
            forall|j: int|
                0 <= j < i ==> is_word_char(#[trigger] value@[j]) || value@[j] == '.' || value@[j]
                    == '_' || value@[j] == '-',
    {
        let c = chars[i];
        if !(word_char(c) || c == '.' || c == '_' || c == '-') {
            assert(!(is_word_char(value@[i as int]) || value@[i as int] == '.' || value@[i as int] == '_'
                || value@[i as int] == '-'));
            return false;
        }
    }
    true
}

/// A job that is to be queued.
#[derive(Debug)]
pub struct NewJob {
    pub job_type: String,
    pub did: String,
    pub inherit_auth: bool,
    pub api_client_id: Option<String>,
    pub dpop_key_id: Option<String>,
}

/// What a [`NewJob`] is.
#[verifier::ext_equal]
pub struct JobView {
    pub job_type: Seq<char>,
    pub did: Seq<char>,
    pub inherit_auth: bool,
    pub api_client_id: Option<Seq<char>>,
    pub dpop_key_id: Option<Seq<char>>,
}

impl View for NewJob {
    type V = JobView;

    open spec fn view(&self) -> JobView {
        JobView {
            job_type: self.job_type@,
            did: self.did@,
            inherit_auth: self.inherit_auth,
            api_client_id: text::opt_text(self.api_client_id),
            dpop_key_id: text::opt_text(self.dpop_key_id),
        }
    }
}

/// What a script's request for a job comes to: the type must be valid and not
/// reserved, there must be a caller, and the caller's credentials are passed on
/// only if that is asked for.
pub open spec fn job_of(
    job_type: Seq<char>,
    reserved_prefix: Seq<char>,
    caller: Option<JobsCaller>,
    inherit_auth: bool,
) -> Result<JobView, Seq<char>> {
    if !is_job_type(job_type) {
        Err("job_type must be 1-128 characters matching /^[a-z0-9][a-z0-9._-]*$/"@)
    } else if text::has_prefix(job_type, reserved_prefix) {
        Err("job_type prefix '"@ + reserved_prefix + "' is reserved for built-in jobs"@)
    } else {
        match caller {
            None => Err("jobs.create requires an authenticated caller"@),
            Some(c) => Ok(
                JobView {
                    job_type,
                    did: c.did@,
                    inherit_auth,
                    api_client_id: if inherit_auth {
                        text::opt_text(c.api_client_id)
                    } else {
                        None
                    },
                    dpop_key_id: if inherit_auth {
                        text::opt_text(c.dpop_key_id)
                    } else {
                        None
                    },
                },
            ),
        }
    }
}

/// Decides on a script's request for a job. The failure is what the script is
/// told.
pub fn create_job(
    job_type: &str,
    reserved_prefix: &str,
    caller: Option<&JobsCaller>,
    inherit_auth: bool,
) -> (job: Result<NewJob, String>)
    ensures
        ({
            let expected = job_of(
                job_type@,
                reserved_prefix@,
                match caller {
                    Some(c) => Some(*c),
                    None => None,
                },
                inherit_auth,
            );
            match job {
                Ok(j) => expected == Ok::<JobView, Seq<char>>(j@),
                Err(message) => expected == Err::<JobView, Seq<char>>(message@),
            }
        }),
{
    if !job_type_is_valid(job_type) {
        return Err(
            "job_type must be 1-128 characters matching /^[a-z0-9][a-z0-9._-]*$/".to_owned(),
        );
    }
    if text::starts_with(job_type, reserved_prefix) {
        return Err(
            text::cat3("job_type prefix '", reserved_prefix, "' is reserved for built-in jobs"),
        );
    }
    let caller = match caller {
        Some(caller) => caller,
        None => {
            return Err("jobs.create requires an authenticated caller".to_owned());
        },
    };
    let (api_client_id, dpop_key_id) = if inherit_auth {
        (text::clone_opt(&caller.api_client_id), text::clone_opt(&caller.dpop_key_id))
    } else {
        (None, None)
    };
    Ok(
        NewJob {
            job_type: job_type.to_owned(),
            did: caller.did.clone(),
            inherit_auth,
            api_client_id,
            dpop_key_id,
        },
    )
}

/// A job carries the caller's credentials only if it was asked to.
pub proof fn law_credentials_are_passed_on_only_if_asked(
    job_type: Seq<char>,
    reserved_prefix: Seq<char>,
    caller: Option<JobsCaller>,
)
    ensures
        job_of(job_type, reserved_prefix, caller, false) matches Ok(job) ==> job.api_client_id is None
            && job.dpop_key_id is None,
{
}

/// A job is queued just if its type is well formed and not reserved, and there is a
/// caller. It is then of that type and the caller's, and carries the caller's
/// credentials if they are to be passed on.
pub proof fn law_when_jobs_are_queued(
    job_type: Seq<char>,
    reserved_prefix: Seq<char>,
    caller: Option<JobsCaller>,
    inherit_auth: bool,
)
    ensures
        job_of(job_type, reserved_prefix, caller, inherit_auth) is Ok <==> {
            &&& 1 <= job_type.len() <= 128
            &&& 'a' <= job_type[0] <= 'z' || '0' <= job_type[0] <= '9'
            &&& forall|i: int|
                0 <= i < job_type.len() ==> 'a' <= (#[trigger] job_type[i]) <= 'z' || '0' <= job_type[i] <= '9'
                    || job_type[i] == '.' || job_type[i] == '_' || job_type[i] == '-'
            &&& !text::has_prefix(job_type, reserved_prefix)
            &&& caller is Some
        },
        job_of(job_type, reserved_prefix, caller, inherit_auth) matches Ok(job) ==> job.job_type == job_type
            && job.inherit_auth == inherit_auth && (caller matches Some(c) && job.did == c.did@ && (
        inherit_auth ==> job.api_client_id == text::opt_text(c.api_client_id) && job.dpop_key_id
            == text::opt_text(c.dpop_key_id))),
{
    if is_job_type(job_type) {
        assert(is_word_char(job_type[0]));
    }
}

} // verus!
