//! Client configuration: model, thinking mode, base URL.

use vstd::prelude::*;

use crate::text::{owned, push_str};

verus! {

/// The default model.
pub open spec fn default_model() -> Seq<char> {
    "deepseek-chat"@
}

/// The official DeepSeek API base URL (no trailing slash).
pub open spec fn default_base_url() -> Seq<char> {
    "https://api.deepseek.com"@
}

/// The default model vava talks to.
pub fn default_model_name() -> (r: String)
    ensures
        r@ == default_model(),
{
    owned("deepseek-chat")
}

/// The official DeepSeek API base URL.
pub fn default_base_url_text() -> (r: String)
    ensures
        r@ == default_base_url(),
{
    owned("https://api.deepseek.com")
}

/// `s` without the `/` characters at its end.
pub open spec fn without_trailing_slashes(s: Seq<char>) -> Seq<char>
    decreases s.len(),
{
    if s.len() > 0 && s.last() == '/' { without_trailing_slashes(s.drop_last()) } else { s }
}

/// Configuration for the DeepSeek client. `model` and `thinking` are
/// independent on purpose.
#[derive(Debug, Clone, PartialEq, Eq)]
pub struct ModelConfig {
    /// The model to query.
    pub model: String,
    /// Whether to request the model's thinking mode.
    pub thinking: bool,
    /// Base URL of the API, without a trailing slash.
    pub base_url: String,
}

impl Default for ModelConfig {
    fn default() -> (r: Self)
        ensures
            r.model@ == default_model(),
            !r.thinking,
            r.base_url@ == default_base_url(),
    {
        ModelConfig { model: default_model_name(), thinking: false, base_url: default_base_url_text() }
    }
}

impl ModelConfig {
    /// A config with the given model and every other default.
    pub fn new(model: &str) -> (r: Self)
        ensures
            r.model@ == model@,
            !r.thinking,
            r.base_url@ == default_base_url(),
    {
        ModelConfig { model: owned(model), thinking: false, base_url: default_base_url_text() }
    }

    /// Enable or disable thinking mode; nothing else changes.
    pub fn with_thinking(self, thinking: bool) -> (r: Self)
        ensures
            r == (ModelConfig { thinking, ..self }),
    {
        let mut s = self;
        s.thinking = thinking;
        s
    }

    /// The chat completions endpoint: the base URL without its trailing
    /// slashes, then `/chat/completions`.
    pub fn endpoint(&self) -> (r: String)
        ensures
            r@ == without_trailing_slashes(self.base_url@) + "/chat/completions"@,
    {
        let base = self.base_url.as_str();
        let mut n = base.unicode_len();
        proof {
            assert(base@.take(n as int) =~= base@);
        }
        while n > 0 && base.get_char(n - 1) == '/'
            invariant
                n <= base@.len(),
                without_trailing_slashes(base@) == without_trailing_slashes(base@.take(n as int)),
            decreases n,
        {
            proof {
                assert(base@.take(n as int).drop_last() =~= base@.take(n - 1));
            }
            n -= 1;
        }
        let mut s = owned(base.substring_char(0, n));
        proof {
            assert(without_trailing_slashes(base@.take(n as int)) == base@.take(n as int));
        }
        push_str(&mut s, "/chat/completions");
        s
    }

    /// Override the API base URL; nothing else changes.
    pub fn with_base_url(self, base_url: &str) -> (r: Self)
        ensures
            r.base_url@ == base_url@,
            r.model == self.model,
            r.thinking == self.thinking,
    {
        let mut s = self;
        s.base_url = owned(base_url);
        s
    }
}

} // verus!
