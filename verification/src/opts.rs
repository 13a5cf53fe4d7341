//! The configuration record of the archiver's command line, its default
//! values, and the derived no-color flag.

use vstd::prelude::*;

use reqwest::header::HeaderMap;

verus! {

/// Default network timeout, in seconds.
pub const DEFAULT_NETWORK_TIMEOUT: u64 = 120;

/// The validated configuration, constructed once per run.
pub struct Options {
    pub no_audio: bool,
    pub base_url: Option<String>,
    pub no_css: bool,
    pub charset: Option<String>,
    pub ignore_errors: bool,
    pub no_frames: bool,
    pub no_fonts: bool,
    pub no_images: bool,
    pub isolate: bool,
    pub no_js: bool,
    pub insecure: bool,
    pub no_metadata: bool,
    pub output: Option<String>,
    pub silent: bool,
    pub timeout: u64,
    pub user_agent: String,
    pub headers: Option<HeaderMap>,
    pub no_video: bool,
    pub target: String,
    pub no_color: bool,
    pub unwrap_noscript: bool,
}

/// The default user-agent string, as a spec value.
pub open spec fn default_user_agent() -> Seq<char> {
    "Mozilla/5.0 (X11; Ubuntu; Linux x86_64; rv:73.0) Gecko/20100101 Firefox/73.0"@
}

impl Default for Options {
    /// Every flag off, timeout 120, the fixed user agent, all optional
    /// fields absent, the target empty.
    fn default() -> (r: Options)
        ensures
            !r.no_audio && r.base_url is None && !r.no_css && r.charset is None
                && !r.ignore_errors && !r.no_frames && !r.no_fonts && !r.no_images && !r.isolate
                && !r.no_js && !r.insecure && !r.no_metadata && r.output is None && !r.silent,
            r.timeout == DEFAULT_NETWORK_TIMEOUT,
            r.user_agent@ == default_user_agent(),
            r.headers is None,
            !r.no_video,
            r.target@ == Seq::<char>::empty(),
            !r.no_color,
            !r.unwrap_noscript,
    {
        Options {
            no_audio: false,
            base_url: None,
            no_css: false,
            charset: None,
            ignore_errors: false,
            no_frames: false,
            no_fonts: false,
            no_images: false,
            isolate: false,
            no_js: false,
            insecure: false,
            no_metadata: false,
            output: None,
            silent: false,
            timeout: DEFAULT_NETWORK_TIMEOUT,
            user_agent: "Mozilla/5.0 (X11; Ubuntu; Linux x86_64; rv:73.0) Gecko/20100101 Firefox/73.0".to_owned(),
            headers: None,
            no_video: false,
            target: String::new(),
            no_color: false,
            unwrap_noscript: false,
        }
    }
}

// ---------------------------------------------------------------------------
// The derived no-color flag
// ---------------------------------------------------------------------------

/// The value of the terminal-type variable that names a terminal without
/// color support.
pub open spec fn dumb_term() -> Seq<char> {
    seq!['d', 'u', 'm', 'b']
}

/// The value of an optional environment variable, as characters.
pub open spec fn term_chars(term: Option<&str>) -> Option<Seq<char>> {
    match term {
        Some(t) => Some(t@),
        None => None,
    }
}

/// Whether colored output is enabled, from the environment signals alone:
/// color needs the error stream on an interactive terminal, the no-color
/// variable unset (any value, even empty, disables), and a terminal type
/// other than `dumb`.
pub open spec fn spec_color_enabled(
    no_color_var_set: bool,
    stderr_is_tty: bool,
    term: Option<Seq<char>>,
) -> bool {
    stderr_is_tty && !no_color_var_set && !(term matches Some(t) && t == dumb_term())
}

/// Resolves the `no_color` flag from the environment signals: true exactly
/// when color output is disabled.
pub fn resolve_no_color(no_color_var_set: bool, stderr_is_tty: bool, term: Option<&str>) -> (r:
    bool)
    ensures
        r == !spec_color_enabled(no_color_var_set, stderr_is_tty, term_chars(term)),
{
    let term_is_dumb: bool = match term {
        Some(t) => {
            if t.unicode_len() == 4 {
                let d = t.get_char(0) == 'd' && t.get_char(1) == 'u' && t.get_char(2) == 'm'
                    && t.get_char(3) == 'b';
                proof {
                    if d {
                        assert(t@ =~= dumb_term());
                    }
                }
                d
            } else {
                false
            }
        },
        None => false,
    };
    no_color_var_set || !stderr_is_tty || term_is_dumb
}

impl Options {
    /// Computes the derived no-color flag from the environment signals and
    /// stores it; every other field keeps its value.
    pub fn apply_color_environment(
        &mut self,
        no_color_var_set: bool,
        stderr_is_tty: bool,
        term: Option<&str>,
    )
        ensures
            final(self).no_color == !spec_color_enabled(
                no_color_var_set,
                stderr_is_tty,
                term_chars(term),
            ),
            *final(self) == (Options { no_color: final(self).no_color, ..*old(self) }),
    {
        self.no_color = resolve_no_color(no_color_var_set, stderr_is_tty, term);
    }
}

// ---------------------------------------------------------------------------
// The explicitly settable fields, as one record
// ---------------------------------------------------------------------------

/// The values of every field a user can set directly; the derived
/// `no_color` flag is not among them.
#[verifier::ext_equal]
pub struct FlagValues {
    pub no_audio: bool,
    pub base_url: Option<String>,
    pub no_css: bool,
    pub charset: Option<String>,
    pub ignore_errors: bool,
    pub no_frames: bool,
    pub no_fonts: bool,
    pub no_images: bool,
    pub isolate: bool,
    pub no_js: bool,
    pub insecure: bool,
    pub no_metadata: bool,
    pub output: Option<String>,
    pub silent: bool,
    pub timeout: u64,
    pub user_agent: String,
    pub headers: Option<HeaderMap>,
    pub no_video: bool,
    pub target: String,
    pub unwrap_noscript: bool,
}

/// The configuration a flag set constructs: the settable fields as given,
/// the derived flag still unset.
pub open spec fn options_of_flags(f: FlagValues) -> Options {
    Options {
        no_audio: f.no_audio,
        base_url: f.base_url,
        no_css: f.no_css,
        charset: f.charset,
        ignore_errors: f.ignore_errors,
        no_frames: f.no_frames,
        no_fonts: f.no_fonts,
        no_images: f.no_images,
        isolate: f.isolate,
        no_js: f.no_js,
        insecure: f.insecure,
        no_metadata: f.no_metadata,
        output: f.output,
        silent: f.silent,
        timeout: f.timeout,
        user_agent: f.user_agent,
        headers: f.headers,
        no_video: f.no_video,
        target: f.target,
        no_color: false,
        unwrap_noscript: f.unwrap_noscript,
    }
}

/// The settable fields a configuration holds.
pub open spec fn flag_values_of(o: Options) -> FlagValues {
    FlagValues {
        no_audio: o.no_audio,
        base_url: o.base_url,
        no_css: o.no_css,
        charset: o.charset,
        ignore_errors: o.ignore_errors,
        no_frames: o.no_frames,
        no_fonts: o.no_fonts,
        no_images: o.no_images,
        isolate: o.isolate,
        no_js: o.no_js,
        insecure: o.insecure,
        no_metadata: o.no_metadata,
        output: o.output,
        silent: o.silent,
        timeout: o.timeout,
        user_agent: o.user_agent,
        headers: o.headers,
        no_video: o.no_video,
        target: o.target,
        unwrap_noscript: o.unwrap_noscript,
    }
}

impl Options {
    /// Builds the configuration from an explicit value for every settable
    /// field; the derived no-color flag starts disabled.
    pub fn from_flag_values(f: FlagValues) -> (r: Options)
        ensures
            r == options_of_flags(f),
    {
        Options {
            no_audio: f.no_audio,
            base_url: f.base_url,
            no_css: f.no_css,
            charset: f.charset,
            ignore_errors: f.ignore_errors,
            no_frames: f.no_frames,
            no_fonts: f.no_fonts,
            no_images: f.no_images,
            isolate: f.isolate,
            no_js: f.no_js,
            insecure: f.insecure,
            no_metadata: f.no_metadata,
            output: f.output,
            silent: f.silent,
            timeout: f.timeout,
            user_agent: f.user_agent,
            headers: f.headers,
            no_video: f.no_video,
            target: f.target,
            no_color: false,
            unwrap_noscript: f.unwrap_noscript,
        }
    }

    /// Reads the settable fields back out of the configuration.
    pub fn into_flag_values(self) -> (r: FlagValues)
        ensures
            r == flag_values_of(self),
    {
        FlagValues {
            no_audio: self.no_audio,
            base_url: self.base_url,
            no_css: self.no_css,
            charset: self.charset,
            ignore_errors: self.ignore_errors,
            no_frames: self.no_frames,
            no_fonts: self.no_fonts,
            no_images: self.no_images,
            isolate: self.isolate,
            no_js: self.no_js,
            insecure: self.insecure,
            no_metadata: self.no_metadata,
            output: self.output,
            silent: self.silent,
            timeout: self.timeout,
            user_agent: self.user_agent,
            headers: self.headers,
            no_video: self.no_video,
            target: self.target,
            unwrap_noscript: self.unwrap_noscript,
        }
    }
}

/// Law: constructing a configuration from a flag set and reading the
/// settable fields back yields the flag set unchanged.
pub proof fn lemma_flag_values_round_trip(f: FlagValues)
    ensures
        flag_values_of(options_of_flags(f)) == f,
{
    assert(flag_values_of(options_of_flags(f)) =~= f);
}

} // verus!
