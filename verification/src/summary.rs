//! Summarization fallback: a result card shown to the user is never
//! silently empty. When the external summarization provider fails, the
//! query pipeline falls back to a truncated prefix of the original content
//! instead of omitting the summary.

use crate::errors::PipelineError;
use vstd::prelude::*;

verus! {

/// The summary to show for a candidate whose content is `content`, given
/// what the summarization provider answered: the provider's text on
/// success, else the first `max_len` characters of the content.
pub fn summary_or_fallback(content: &str, provider: Result<String, PipelineError>, max_len: usize)
    -> (r: String)
    ensures
        provider matches Ok(s) ==> r@ == s@,
        provider is Err ==> r@ == content@.take(
            if max_len <= content@.len() {
                max_len as int
            } else {
                content@.len() as int
            },
        ),
{
    match provider {
        Ok(s) => s,
        Err(_) => {
            let n = content.unicode_len();
            let end = if max_len <= n {
                max_len
            } else {
                n
            };
            let prefix = content.substring_char(0, end);
            prefix.to_owned()
        },
    }
}

} // verus!
