//! The build metadata that hosts report, and the line they log it with.
use vstd::prelude::*;
use crate::chars::{chars_of, push_char};

verus! {

/// Where and how the library was built.
pub struct BuildInfo {
    pub git_sha: String,
    pub build_timestamp: String,
    pub build_semver: String,
    pub profile: String,
}

/// The `Debug` form of a string: the text quoted, with its escapes.
pub uninterp spec fn debug_of(s: Seq<char>) -> Seq<char>;

/// Relies on `String`'s `Debug` impl (through `format!("{:?}")`): the quoted,
/// escaped form of the text, which depends on the text alone.
#[verifier::external_body]
fn debug_text(s: &String) -> (r: String)
    ensures
        r@ == debug_of(s@),
{
    format!("{:?}", s)
}

/// The line that reports a build: `VXL` and the `Debug` form of the build
/// information, field by field.
pub open spec fn build_info_line(info: &BuildInfo) -> Seq<char> {
    "VXL BuildInfo { git_sha: "@ + debug_of(info.git_sha@) + ", build_timestamp: "@ + debug_of(
        info.build_timestamp@,
    ) + ", build_semver: "@ + debug_of(info.build_semver@) + ", profile: "@ + debug_of(
        info.profile@,
    ) + " }"@
}

/// Appends the characters of `t` to `out`.
fn push_text(out: &mut String, t: &str)
    ensures
        final(out)@ == old(out)@ + t@,
{
    let cs = chars_of(t);
    let ghost start = out@;
    let mut k: usize = 0;
    while k < cs.len()
        invariant
            k <= cs@.len(),
            cs@ == t@,
            out@ == start + cs@.subrange(0, k as int),
        decreases cs@.len() - k,
    {
        push_char(out, cs[k]);
        assert(cs@.subrange(0, k + 1) =~= cs@.subrange(0, k as int).push(cs@[k as int]));
        k = k + 1;
    }
    assert(cs@.subrange(0, cs@.len() as int) =~= cs@);
}

/// Appends the characters of `s` to `out`.
fn push_all(out: &mut String, s: &String)
    ensures
        final(out)@ == old(out)@ + s@,
{
    let cs = chars_of(s.as_str());
    let ghost start = out@;
    let mut k: usize = 0;
    while k < cs.len()
        invariant
            k <= cs@.len(),
            cs@ == s@,
            out@ == start + cs@.subrange(0, k as int),
        decreases cs@.len() - k,
    {
        push_char(out, cs[k]);
        assert(cs@.subrange(0, k + 1) =~= cs@.subrange(0, k as int).push(cs@[k as int]));
        k = k + 1;
    }
    assert(cs@.subrange(0, cs@.len() as int) =~= cs@);
}

impl BuildInfo {
    /// The commit the build was made from.
    pub fn git_sha(&self) -> (r: String)
        ensures
            r@ == self.git_sha@,
    {
        self.git_sha.clone()
    }

    /// When the build was made.
    pub fn build_timestamp(&self) -> (r: String)
        ensures
            r@ == self.build_timestamp@,
    {
        self.build_timestamp.clone()
    }

    /// The version that was built.
    pub fn build_semver(&self) -> (r: String)
        ensures
            r@ == self.build_semver@,
    {
        self.build_semver.clone()
    }

    /// The build profile.
    pub fn profile(&self) -> (r: String)
        ensures
            r@ == self.profile@,
    {
        self.profile.clone()
    }
}

/// The line a host logs to report the build.
pub fn console_log_build_info(info: &BuildInfo) -> (r: String)
    ensures
        r@ == build_info_line(info),
{
    let mut out = String::new();
    push_text(&mut out, "VXL BuildInfo { git_sha: ");
    push_all(&mut out, &debug_text(&info.git_sha));
    push_text(&mut out, ", build_timestamp: ");
    push_all(&mut out, &debug_text(&info.build_timestamp));
    push_text(&mut out, ", build_semver: ");
    push_all(&mut out, &debug_text(&info.build_semver));
    push_text(&mut out, ", profile: ");
    push_all(&mut out, &debug_text(&info.profile));
    push_text(&mut out, " }");
    assert(out@ =~= build_info_line(info));
    out
}

} // verus!
