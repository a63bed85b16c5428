//! Building the launch of one agent process: where the executable is
//! looked for, the fixed argument set for a non-interactive run, and the
//! environment overrides layered on the inherited environment. Probing the
//! file system and spawning happen outside.

use vstd::prelude::*;
use vstd::string::StringExecFns;

verus! {

/// The position of the first set flag, or minus one.
pub open spec fn first_true(e: Seq<bool>) -> int
    decreases e,
{
    if e.len() == 0 {
        -1
    } else if e[0] {
        0
    } else {
        let r = first_true(e.subrange(1, e.len() as int));
        if r < 0 {
            -1
        } else {
            r + 1
        }
    }
}

/// The first set flag is within bounds, set, and preceded by clear ones.
pub proof fn lemma_first_true(e: Seq<bool>)
    ensures
        -1 <= first_true(e) < e.len(),
        first_true(e) >= 0 ==> e[first_true(e)],
        forall|j: int| 0 <= j < first_true(e) ==> !e[j],
        first_true(e) == -1 ==> forall|j: int| 0 <= j < e.len() ==> !e[j],
    decreases e,
{
    if e.len() > 0 && !e[0] {
        lemma_first_true(e.subrange(1, e.len() as int));
        assert forall|j: int| 0 <= j < first_true(e) implies !e[j] by {
            if j > 0 {
                assert(e.subrange(1, e.len() as int)[j - 1] == e[j]);
            }
        }
        if first_true(e) == -1 {
            assert forall|j: int| 0 <= j < e.len() implies !e[j] by {
                if j > 0 {
                    assert(e.subrange(1, e.len() as int)[j - 1] == e[j]);
                }
            }
        }
    }
}

/// Picks the executable: the first candidate that exists, else the fallback
/// left to the ambient search path.
#[verifier::loop_isolation(false)]
pub fn resolve_executable(candidates: &Vec<String>, exists: &Vec<bool>, fallback: &str) -> (r:
    String)
    requires
        candidates@.len() == exists@.len(),
    ensures
        first_true(exists@) >= 0 ==> r == candidates@[first_true(exists@)],
        first_true(exists@) == -1 ==> r@ == fallback@,
{
    proof {
        lemma_first_true(exists@);
    }
    let mut i: usize = 0;
    while i < candidates.len()
        invariant
            i <= exists@.len(),
            forall|j: int| 0 <= j < i ==> !exists@[j],
        decreases exists@.len() - i,
    {
        if exists[i] {
            proof {
                assert(first_true(exists@) == i as int) by {
                    if first_true(exists@) < i as int && first_true(exists@) >= 0 {
                        assert(exists@[first_true(exists@)]);
                    }
                    if first_true(exists@) > i as int {
                        assert(!exists@[i as int]);
                    }
                    if first_true(exists@) == -1 {
                        assert(!exists@[i as int]);
                    }
                }
            }
            return candidates[i].clone();
        }
        i += 1;
    }
    proof {
        if first_true(exists@) >= 0 {
            assert(!exists@[first_true(exists@)]);
        }
    }
    String::from_str(fallback)
}

/// The argument list of one non-interactive agent run: print mode with
/// streamed JSON output, the resume identifier where a session is
/// continued, and the prompt last.
pub fn build_claude_args(prompt: &str, resume_id: &Option<String>) -> (r: Vec<String>)
    ensures
        match resume_id {
            Some(id) => r@.len() == 7 && r@[4]@ == "--resume"@ && r@[5]@ == id@ && r@[6]@
                == prompt@,
            None => r@.len() == 5 && r@[4]@ == prompt@,
        },
        r@[0]@ == "--print"@,
        r@[1]@ == "--output-format"@,
        r@[2]@ == "stream-json"@,
        r@[3]@ == "--verbose"@,
{
    let mut out: Vec<String> = Vec::new();
    out.push(String::from_str("--print"));
    out.push(String::from_str("--output-format"));
    out.push(String::from_str("stream-json"));
    out.push(String::from_str("--verbose"));
    match resume_id {
        Some(id) => {
            out.push(String::from_str("--resume"));
            out.push(id.clone());
        },
        None => {},
    }
    out.push(String::from_str(prompt));
    out
}

/// The environment overrides layered on the inherited environment: a fixed
/// terminal type and locale.
pub fn launch_env_overrides() -> (r: Vec<(String, String)>)
    ensures
        r@.len() == 3,
        r@[0].0@ == "TERM"@ && r@[0].1@ == "xterm-256color"@,
        r@[1].0@ == "LANG"@ && r@[1].1@ == "en_US.UTF-8"@,
        r@[2].0@ == "LC_ALL"@ && r@[2].1@ == "en_US.UTF-8"@,
{
    let mut out: Vec<(String, String)> = Vec::new();
    out.push((String::from_str("TERM"), String::from_str("xterm-256color")));
    out.push((String::from_str("LANG"), String::from_str("en_US.UTF-8")));
    out.push((String::from_str("LC_ALL"), String::from_str("en_US.UTF-8")));
    out
}

} // verus!
