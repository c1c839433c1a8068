//! The decisions that the upstream sources make: which of several upstreams
//! answers, how an S3 object key and an upstream URL are formed from a
//! request path, and what an HTTP status means.
use vstd::prelude::*;

verus! {

/// How one upstream answered a request.
#[derive(Clone, Copy, PartialEq, Eq, Structural, Debug)]
pub enum UpstreamOutcome {
    /// It returned the resource.
    Found,
    /// It does not have the resource.
    NotFound,
    /// It failed.
    Failed,
}

/// What a chain of upstreams answers, as the index of the upstream whose
/// answer is passed on.
#[derive(Clone, Copy, PartialEq, Eq, Structural, Debug)]
pub enum FallthroughDecision {
    /// The resource from this upstream.
    Found(usize),
    /// The error of this upstream.
    Failed(usize),
    /// No upstream had the resource, and none failed.
    NotFound,
}

/// The position of the first answer in `outcomes` that is `target`.
pub open spec fn first_of(outcomes: Seq<UpstreamOutcome>, target: UpstreamOutcome) -> Option<nat>
    decreases outcomes.len(),
{
    if outcomes.len() == 0 {
        None
    } else {
        match first_of(outcomes.drop_last(), target) {
            Some(i) => Some(i),
            None => if outcomes.last() == target {
                Some((outcomes.len() - 1) as nat)
            } else {
                None
            },
        }
    }
}

/// What a chain of upstreams answers when they answer `outcomes` in turn:
/// the first resource found; otherwise the first error; otherwise "not
/// found".
pub open spec fn spec_fallthrough(outcomes: Seq<UpstreamOutcome>) -> FallthroughDecision {
    match first_of(outcomes, UpstreamOutcome::Found) {
        Some(i) => FallthroughDecision::Found(i as usize),
        None => match first_of(outcomes, UpstreamOutcome::Failed) {
            Some(i) => FallthroughDecision::Failed(i as usize),
            None => FallthroughDecision::NotFound,
        },
    }
}

/// The progress of a request through a chain of upstreams, tried one after
/// the other: how many answered, and the first that failed.
pub struct FallthroughState {
    tried: usize,
    first_error: Option<usize>,
}

impl FallthroughState {
    /// The state after the upstreams answered `outcomes`, none of them with
    /// the resource.
    pub closed spec fn models(&self, outcomes: Seq<UpstreamOutcome>) -> bool {
        &&& self.tried == outcomes.len()
        &&& first_of(outcomes, UpstreamOutcome::Found) is None
        &&& match first_of(outcomes, UpstreamOutcome::Failed) {
            Some(i) => self.first_error == Some(i as usize),
            None => self.first_error is None,
        }
    }

    /// The number of upstreams that answered.
    pub closed spec fn spec_tried(&self) -> nat {
        self.tried as nat
    }

    /// No upstream has answered yet.
    pub fn new() -> (state: Self)
        ensures
            state.models(Seq::empty()),
            state.spec_tried() == 0,
    {
        FallthroughState { tried: 0, first_error: None }
    }

    /// The index of the next upstream to try.
    pub fn next_index(&self) -> (index: usize)
        ensures
            index == self.spec_tried(),
    {
        self.tried
    }

    /// Records the answer of the next upstream. When it found the resource,
    /// that answer is the chain's; otherwise the next upstream is tried.
    pub fn record(&mut self, outcome: UpstreamOutcome) -> (decision: Option<FallthroughDecision>)
        requires
            old(self).spec_tried() < usize::MAX,
        ensures
            final(self).spec_tried() == old(self).spec_tried() + 1,
            forall|outcomes: Seq<UpstreamOutcome>|
                #![trigger old(self).models(outcomes)]
                old(self).models(outcomes) ==> {
                    &&& outcome == UpstreamOutcome::Found ==> decision == Some(
                        spec_fallthrough(outcomes.push(outcome)),
                    )
                    &&& outcome != UpstreamOutcome::Found ==> decision is None
                        && final(self).models(outcomes.push(outcome))
                },
    {
        let index = self.tried;
        let decision = match outcome {
            UpstreamOutcome::Found => Some(FallthroughDecision::Found(index)),
            UpstreamOutcome::NotFound => None,
            UpstreamOutcome::Failed => {
                if self.first_error.is_none() {
                    self.first_error = Some(index);
                }
                None
            },
        };
        self.tried = index + 1;
        proof {
            assert forall|outcomes: Seq<UpstreamOutcome>|
                #![trigger old(self).models(outcomes)]
                old(self).models(outcomes) implies {
                &&& outcome == UpstreamOutcome::Found ==> decision == Some(
                    spec_fallthrough(outcomes.push(outcome)),
                )
                &&& outcome != UpstreamOutcome::Found ==> decision is None && self.models(
                    outcomes.push(outcome),
                )
            } by {
                assert(outcomes.push(outcome).drop_last() =~= outcomes);
            }
        }
        decision
    }

    /// The chain's answer once every upstream answered without the resource.
    pub fn finish(&self) -> (decision: FallthroughDecision)
        ensures
            forall|outcomes: Seq<UpstreamOutcome>|
                #![trigger self.models(outcomes)]
                self.models(outcomes) ==> decision == spec_fallthrough(outcomes),
    {
        match self.first_error {
            Some(index) => FallthroughDecision::Failed(index),
            None => FallthroughDecision::NotFound,
        }
    }
}

/// The chain's answer for upstreams that answered `outcomes` in turn: the
/// first found resource wins over every error, an error wins over "not
/// found", and among errors the first is kept.
pub proof fn lemma_fallthrough_priorities(outcomes: Seq<UpstreamOutcome>, i: int)
    requires
        0 <= i < outcomes.len(),
        outcomes.len() <= usize::MAX,
    ensures
        outcomes[i] == UpstreamOutcome::Found ==> spec_fallthrough(outcomes) is Found,
        outcomes[i] == UpstreamOutcome::Failed ==> !(spec_fallthrough(outcomes) is NotFound),
        spec_fallthrough(outcomes) matches FallthroughDecision::Found(j) ==> j <= i || outcomes[i]
            != UpstreamOutcome::Found,
        spec_fallthrough(outcomes) matches FallthroughDecision::Failed(j) ==> (j <= i
            || outcomes[i] != UpstreamOutcome::Failed) && outcomes[j as int]
            == UpstreamOutcome::Failed,
    decreases outcomes.len(),
{
    lemma_first_of(outcomes, UpstreamOutcome::Found, i);
    lemma_first_of(outcomes, UpstreamOutcome::Failed, i);
}

/// The chain's answer, stated over the answers themselves: a resource
/// comes from the first upstream that found it; an error is passed on only
/// when none found it, and it is the first upstream's that failed; "not
/// found" only when every upstream answered "not found".
pub proof fn lemma_fallthrough_answer(outcomes: Seq<UpstreamOutcome>)
    requires
        outcomes.len() <= usize::MAX,
    ensures
        spec_fallthrough(outcomes) matches FallthroughDecision::Found(j) ==> {
            &&& j < outcomes.len()
            &&& outcomes[j as int] == UpstreamOutcome::Found
            &&& forall|k: int| 0 <= k < j ==> outcomes[k] != UpstreamOutcome::Found
        },
        spec_fallthrough(outcomes) matches FallthroughDecision::Failed(j) ==> {
            &&& j < outcomes.len()
            &&& outcomes[j as int] == UpstreamOutcome::Failed
            &&& forall|k: int| 0 <= k < j ==> outcomes[k] != UpstreamOutcome::Failed
            &&& forall|k: int| 0 <= k < outcomes.len() ==> outcomes[k] != UpstreamOutcome::Found
        },
        spec_fallthrough(outcomes) is NotFound <==> forall|k: int|
            0 <= k < outcomes.len() ==> outcomes[k] == UpstreamOutcome::NotFound,
{
    assert forall|k: int| 0 <= k < outcomes.len() implies {
        &&& (first_of(outcomes, UpstreamOutcome::Found) matches Some(j) ==> j < outcomes.len()
            && outcomes[j as int] == UpstreamOutcome::Found && (outcomes[k]
            == UpstreamOutcome::Found ==> j <= k))
        &&& (first_of(outcomes, UpstreamOutcome::Failed) matches Some(j) ==> j < outcomes.len()
            && outcomes[j as int] == UpstreamOutcome::Failed && (outcomes[k]
            == UpstreamOutcome::Failed ==> j <= k))
        &&& (outcomes[k] == UpstreamOutcome::Found ==> first_of(outcomes, UpstreamOutcome::Found)
            is Some)
        &&& (outcomes[k] == UpstreamOutcome::Failed ==> first_of(
            outcomes,
            UpstreamOutcome::Failed,
        ) is Some)
    } by {
        lemma_first_of(outcomes, UpstreamOutcome::Found, k);
        lemma_first_of(outcomes, UpstreamOutcome::Failed, k);
    }
    if outcomes.len() > 0 {
        lemma_first_of(outcomes, UpstreamOutcome::Found, 0);
        lemma_first_of(outcomes, UpstreamOutcome::Failed, 0);
    }
    assert(spec_fallthrough(outcomes) is NotFound ==> forall|k: int|
        0 <= k < outcomes.len() ==> outcomes[k] == UpstreamOutcome::NotFound) by {
        assert forall|k: int| 0 <= k < outcomes.len() && spec_fallthrough(outcomes) is NotFound
            implies outcomes[k] == UpstreamOutcome::NotFound by {
            lemma_first_of(outcomes, UpstreamOutcome::Found, k);
            lemma_first_of(outcomes, UpstreamOutcome::Failed, k);
        }
    }
}

/// `first_of` finds the earliest position holding the target.
proof fn lemma_first_of(outcomes: Seq<UpstreamOutcome>, target: UpstreamOutcome, i: int)
    requires
        0 <= i < outcomes.len(),
    ensures
        outcomes[i] == target ==> first_of(outcomes, target) is Some,
        first_of(outcomes, target) matches Some(j) ==> j < outcomes.len() && outcomes[j as int]
            == target && (outcomes[i] == target ==> j <= i),
    decreases outcomes.len(),
{
    let prefix = outcomes.drop_last();
    if i < outcomes.len() - 1 {
        lemma_first_of(prefix, target, i);
    } else if prefix.len() > 0 {
        lemma_first_of(prefix, target, 0);
    }
}

/// The number of `/` that `s` starts with.
pub open spec fn leading_slashes(s: Seq<char>) -> nat
    decreases s.len(),
{
    if s.len() > 0 && s[0] == '/' {
        1 + leading_slashes(s.skip(1))
    } else {
        0
    }
}

/// `s` without the `/` it starts with.
pub open spec fn trim_leading_slashes(s: Seq<char>) -> Seq<char> {
    s.skip(leading_slashes(s) as int)
}

proof fn lemma_leading_slashes(s: Seq<char>, i: int)
    requires
        0 <= i <= s.len(),
        forall|j: int| 0 <= j < i ==> s[j] == '/',
    ensures
        leading_slashes(s) == i + leading_slashes(s.skip(i)),
        leading_slashes(s) <= s.len(),
    decreases i,
{
    lemma_leading_slashes_bound(s);
    if i > 0 {
        let t = s.skip(1);
        assert forall|j: int| 0 <= j < i - 1 implies t[j] == '/' by {
            assert(t[j] == s[j + 1]);
        }
        lemma_leading_slashes(t, i - 1);
        assert(t.skip(i - 1) =~= s.skip(i));
    } else {
        assert(s.skip(0) =~= s);
    }
}

proof fn lemma_leading_slashes_bound(s: Seq<char>)
    ensures
        leading_slashes(s) <= s.len(),
    decreases s.len(),
{
    if s.len() > 0 && s[0] == '/' {
        lemma_leading_slashes_bound(s.skip(1));
    }
}

/// Trimming leading slashes removes exactly the run of `/` that `s` starts
/// with: what is removed is all `/`, what is left is the rest of `s`
/// unchanged, and it does not start with `/`.
pub proof fn lemma_trim_leading_slashes(s: Seq<char>)
    ensures
        ({
            let rest = trim_leading_slashes(s);
            let n = s.len() - rest.len();
            &&& 0 <= n <= s.len()
            &&& forall|j: int| 0 <= j < n ==> s[j] == '/'
            &&& s.skip(n) == rest
            &&& rest.len() > 0 ==> rest[0] != '/'
        }),
    decreases s.len(),
{
    lemma_leading_slashes_bound(s);
    if s.len() > 0 && s[0] == '/' {
        let t = s.skip(1);
        lemma_trim_leading_slashes(t);
        lemma_leading_slashes_bound(t);
        assert(t.skip(leading_slashes(t) as int) =~= s.skip(leading_slashes(s) as int));
        assert forall|j: int| 0 <= j < leading_slashes(s) implies s[j] == '/' by {
            if j > 0 {
                assert(s[j] == t[j - 1]);
            }
        }
    } else {
        assert(s.skip(0) =~= s);
    }
}

/// A request path without the `/` it starts with.
pub fn strip_leading_slashes(path: &str) -> (rest: String)
    ensures
        rest@ == trim_leading_slashes(path@),
{
    let len = path.unicode_len();
    let mut start: usize = 0;
    while start < len && path.get_char(start) == '/'
        invariant
            len == path@.len(),
            0 <= start <= len,
            forall|j: int| 0 <= j < start ==> path@[j] == '/',
        decreases len - start,
    {
        start = start + 1;
    }
    proof {
        lemma_leading_slashes(path@, start as int);
        if start < len {
            assert(path@.skip(start as int)[0] == path@[start as int]);
        }
        assert(leading_slashes(path@.skip(start as int)) == 0);
    }
    let rest = path.substring_char(start, len);
    proof {
        assert(rest@ =~= trim_leading_slashes(path@));
    }
    String::from_str(rest)
}

/// The key of the S3 object for a request path: the configured prefix, then
/// the path without the `/` it starts with.
pub fn s3_object_key(prefix: &str, path: &str) -> (key: String)
    ensures
        key@ == prefix@ + trim_leading_slashes(path@),
{
    let rest = strip_leading_slashes(path);
    String::from_str(prefix).concat(rest.as_str())
}

/// What an HTTP status from an upstream server means.
#[derive(Clone, Copy, PartialEq, Eq, Structural, Debug)]
pub enum StatusClass {
    /// 404: the upstream does not have the resource.
    NotFound,
    /// Another 4xx or a 5xx: the request failed.
    Error,
    /// Any other status: the response carries the resource.
    Success,
}

/// What an HTTP status means: 404 is "not found", the other client and
/// server errors (400 to 599) are failures, anything else is a success.
pub open spec fn spec_status_class(status: u16) -> StatusClass {
    if status == 404 {
        StatusClass::NotFound
    } else if 400 <= status < 600 {
        StatusClass::Error
    } else {
        StatusClass::Success
    }
}

/// Only 404 means "not found"; every other client or server error status,
/// 400 through 599, is a failure; every status below 400 or above 599 carries
/// the resource.
pub proof fn lemma_status_classes(status: u16)
    ensures
        status == 404 <==> spec_status_class(status) == StatusClass::NotFound,
        400 <= status <= 599 && status != 404 <==> spec_status_class(status)
            == StatusClass::Error,
        status < 400 || status > 599 <==> spec_status_class(status) == StatusClass::Success,
{
}

/// Classifies an upstream HTTP status.
pub fn classify_status(status: u16) -> (class: StatusClass)
    ensures
        class == spec_status_class(status),
        status == 404 <==> class == StatusClass::NotFound,
        400 <= status <= 599 && status != 404 <==> class == StatusClass::Error,
        status < 400 || status > 599 <==> class == StatusClass::Success,
{
    if status == 404 {
        StatusClass::NotFound
    } else if 400 <= status && status < 600 {
        StatusClass::Error
    } else {
        StatusClass::Success
    }
}


#[verifier::external_type_specification]
#[verifier::external_body]
pub struct ExUrlParseError(url::ParseError);

/// The text of the URL that `url` resolves `input` to, relative to the URL
/// whose text is `base`; `None` when either does not parse.
pub uninterp spec fn url_join(base: Seq<char>, input: Seq<char>) -> Option<Seq<char>>;

/// `url::Url::join`, on the URL that `base` holds: resolves `input`
/// against it, as the URL standard does, and gives the text of the result.
#[verifier::external_body]
fn join_url(base: &str, input: &str) -> (joined: Result<String, url::ParseError>)
    ensures
        joined is Ok <==> url_join(base@, input@) is Some,
        joined matches Ok(text) ==> text@ == url_join(base@, input@)->0,
{
    match url::Url::parse(base) {
        Ok(base) => base.join(input).map(String::from),
        Err(error) => Err(error),
    }
}

/// The upstream URL could not be formed from the configured base URL and a
/// request path.
pub struct InvalidUpstreamUrl {
    pub error: url::ParseError,
}

/// The URL of the upstream resource for a request path: the path, without
/// the `/` it starts with, resolved against the configured base URL (so the
/// base should end in `/` for the path to land below it).
pub fn upstream_url(base: &str, path: &str) -> (url: Result<String, InvalidUpstreamUrl>)
    ensures
        url is Ok <==> url_join(base@, trim_leading_slashes(path@)) is Some,
        url matches Ok(text) ==> text@ == url_join(base@, trim_leading_slashes(path@))->0,
{
    let relative = strip_leading_slashes(path);
    match join_url(base, relative.as_str()) {
        Ok(text) => Ok(text),
        Err(error) => Err(InvalidUpstreamUrl { error }),
    }
}
} // verus!
