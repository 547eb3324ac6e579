//! The publish invocation: the switches of a session, the arguments of the
//! command, and what its exit status means.

use crate::manifest::key_texts;
use vstd::prelude::*;
use vstd::string::StringExecFns;

verus! {

/// The switches that hold for every publish invocation of a session.
#[derive(Debug, Clone, Copy, PartialEq, Eq, Structural)]
pub struct ReleaseConfig {
    /// Publish although the working directory has uncommitted changes.
    pub allow_dirty: bool,
    /// Go through the motions without uploading anything.
    pub dry_run: bool,
}

impl Default for ReleaseConfig {
    /// The safe setting: a dry run that refuses a dirty working directory.
    fn default() -> (config: ReleaseConfig)
        ensures
            !config.allow_dirty,
            config.dry_run,
    {
        ReleaseConfig { allow_dirty: false, dry_run: true }
    }
}

impl ReleaseConfig {
    /// Turns `allow_dirty` over.
    pub fn toggle_allow_dirty(&mut self)
        ensures
            final(self).allow_dirty == !old(self).allow_dirty,
            final(self).dry_run == old(self).dry_run,
    {
        self.allow_dirty = !self.allow_dirty;
    }

    /// Turns `dry_run` over.
    pub fn toggle_dry_run(&mut self)
        ensures
            final(self).dry_run == !old(self).dry_run,
            final(self).allow_dirty == old(self).allow_dirty,
    {
        self.dry_run = !self.dry_run;
    }
}

/// `word`, where `present`.
pub open spec fn flag(present: bool, word: Seq<char>) -> Seq<Seq<char>> {
    if present {
        seq![word]
    } else {
        Seq::empty()
    }
}

/// The arguments of the publish command for one manifest.
pub open spec fn publish_arguments(manifest_path: Seq<char>, config: ReleaseConfig) -> Seq<
    Seq<char>,
> {
    seq!["publish"@, "--manifest-path"@, manifest_path] + flag(
        config.allow_dirty,
        "--allow-dirty"@,
    ) + flag(config.dry_run, "--dry-run"@)
}

/// The arguments that the package manager is called with to publish the
/// package of the manifest at `manifest_path`.
pub fn publish_args(manifest_path: &str, config: &ReleaseConfig) -> (args: Vec<String>)
    ensures
        key_texts(args@) == publish_arguments(manifest_path@, *config),
{
    let mut args: Vec<String> = Vec::new();
    args.push(String::from_str("publish"));
    args.push(String::from_str("--manifest-path"));
    args.push(String::from_str(manifest_path));
    if config.allow_dirty {
        args.push(String::from_str("--allow-dirty"));
    }
    if config.dry_run {
        args.push(String::from_str("--dry-run"));
    }
    assert(key_texts(args@) =~= publish_arguments(manifest_path@, *config));
    args
}

/// A publish invocation that did not end well.
#[derive(Debug, Clone, PartialEq, Eq)]
pub struct PublishInvocationError {
    /// The exit code, or `None` where the command could not be started or
    /// was ended by a signal.
    pub code: Option<i32>,
    /// What the command wrote.
    pub output: String,
}

/// Whether a publish invocation succeeded: it did when it ended with exit
/// code zero. Otherwise the error carries the code and the output.
pub fn publish_outcome(code: Option<i32>, output: String) -> (r: Result<(), PublishInvocationError>)
    ensures
        r is Ok <==> code == Some(0i32),
        r matches Err(e) ==> e.code == code && e.output == output,
{
    match code {
        Some(0) => Ok(()),
        _ => Err(PublishInvocationError { code, output }),
    }
}

} // verus!
