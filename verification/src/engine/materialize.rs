//! Hidden checkpoint commit messages: writing the metadata footers and reading them back.
use vstd::prelude::*;
use vstd::string::*;

use crate::domain::ids::class_branch;
use crate::domain::manager::PendingSource;
use crate::domain::manifest::StrictSnapshot;
use crate::domain::policy::{spec_matches_owned_path, Policy, PolicyEpoch};
use crate::domain::repopath::RepoPath;
use crate::domain::session::{ClassView, HeadState, StreamClass, StreamIdentity};
use crate::domain::session_tracker::opt_text;
use crate::lines::{
    chars_equal, chars_range, footer_line, footer_value, footer_value_chars, lemma_append_footer,
    lemma_append_other_footer, lemma_lookup_push, lemma_single_line, no_newline, lemma_text_lines_concat, lines_from, lookup_line, opt_chars, plain_key,
    single_line, strip_cr, text_lines,
};
use crate::numtext::{
    decimal, decimal_chars, lemma_decimal_digits, lemma_parse_decimal, parse_u64, parse_u64_chars,
};
use crate::text::{
    chars_of, chars_start_with, first_occurrence_from, lemma_first_occurrence_from, occurs_at, push_str, starts_with,
    string_of, strip_prefix,
};

verus! {

/// The fields a checkpoint commit message records.
pub struct CheckpointMessageContext<'a> {
    pub subject: &'a str,
    pub generation: u64,
    pub source: PendingSource,
    pub snapshot: &'a StrictSnapshot,
    pub head: &'a HeadState,
    pub stream: &'a StreamIdentity,
    pub policy_epoch: &'a PolicyEpoch,
}

/// The metadata read back from a checkpoint commit message.
#[derive(Debug, Clone)]
pub struct CheckpointMetadata {
    pub generation: u64,
    pub policy_epoch: String,
    pub stream_class: StreamClass,
    pub observed_head_ref: Option<String>,
    pub observed_head_oid: Option<String>,
    pub materialized_fingerprint: String,
    pub observed_fingerprint: Option<String>,
}

/// Why a commit message does not carry checkpoint metadata.
#[derive(Debug, Clone, PartialEq, Eq)]
pub enum MetadataError {
    /// A required footer is absent (the footer's key).
    MissingFooter(String),
    /// The generation footer is not an unsigned integer.
    InvalidGeneration(String),
    /// The stream-class footer names no known class.
    UnsupportedStreamClass(String),
}

/// The debug name of a pending source.
pub open spec fn source_name(s: PendingSource) -> Seq<char> {
    match s {
        PendingSource::TurnLocal => "TurnLocal"@,
        PendingSource::Inherited => "Inherited"@,
        PendingSource::Mixed => "Mixed"@,
        PendingSource::External => "External"@,
    }
}

impl MetadataError {
    /// The error's message.
    pub fn message(&self) -> (m: String)
        ensures
            m@ == (match self {
                MetadataError::MissingFooter(k) => "missing "@ + k@ + " footer"@,
                MetadataError::InvalidGeneration(v) => "invalid Sprocket-Generation footer: "@ + v@,
                MetadataError::UnsupportedStreamClass(v) => "unsupported Sprocket-Stream-Class footer: "@ + v@,
            }),
    {
        match self {
            MetadataError::MissingFooter(k) => {
                let mut m = String::from_str("missing ");
                push_str(&mut m, k.as_str());
                push_str(&mut m, " footer");
                m
            },
            MetadataError::InvalidGeneration(v) => {
                let mut m = String::from_str("invalid Sprocket-Generation footer: ");
                push_str(&mut m, v.as_str());
                m
            },
            MetadataError::UnsupportedStreamClass(v) => {
                let mut m = String::from_str("unsupported Sprocket-Stream-Class footer: ");
                push_str(&mut m, v.as_str());
                m
            },
        }
    }
}

/// How a stream class is written in a footer.
pub open spec fn class_text(c: StreamClass) -> Seq<char> {
    match c {
        StreamClass::Branch { symref } => "branch:"@ + symref@,
        StreamClass::DetachedHead => "detached_head"@,
    }
}

/// An optional value as written in a footer (`none` when absent).
pub open spec fn or_none(v: Option<String>) -> Seq<char> {
    match v {
        Some(s) => s@,
        None => "none"@,
    }
}

pub open spec fn generation_key() -> Seq<char> { "Sprocket-Generation"@ }
pub open spec fn source_key() -> Seq<char> { "Sprocket-Source"@ }
pub open spec fn epoch_key() -> Seq<char> { "Sprocket-Policy-Epoch"@ }
pub open spec fn class_key() -> Seq<char> { "Sprocket-Stream-Class"@ }
pub open spec fn head_ref_key() -> Seq<char> { "Sprocket-Observed-Head-Ref"@ }
pub open spec fn head_oid_key() -> Seq<char> { "Sprocket-Observed-Head-Oid"@ }
pub open spec fn materialized_key() -> Seq<char> { "Sprocket-Materialized-Fingerprint"@ }
pub open spec fn observed_key() -> Seq<char> { "Sprocket-Observed-Fingerprint"@ }
pub open spec fn stream_key() -> Seq<char> { "Sprocket-Stream"@ }
pub open spec fn worktree_key() -> Seq<char> { "Sprocket-Worktree"@ }

/// The footers recording the generation, source and policy epoch.
pub open spec fn origin_footers(ctx: CheckpointMessageContext) -> Seq<char> {
    footer_line(generation_key(), decimal(ctx.generation as nat))
        + footer_line(source_key(), source_name(ctx.source))
        + footer_line(epoch_key(), ctx.policy_epoch.0@)
}

/// The footers recording the stream class, the observed HEAD and the materialized fingerprint.
pub open spec fn head_footers(ctx: CheckpointMessageContext) -> Seq<char> {
    footer_line(class_key(), class_text(ctx.stream.class))
        + footer_line(head_ref_key(), or_none(ctx.head.symref))
        + footer_line(head_oid_key(), or_none(ctx.head.oid))
        + footer_line(materialized_key(), ctx.snapshot.materialized_fingerprint@)
}

/// The footers recording the observed fingerprint (when there is one), the stream and the
/// worktree.
pub open spec fn stream_footers(ctx: CheckpointMessageContext) -> Seq<char> {
    (match ctx.snapshot.observed_fingerprint {
        Some(v) => footer_line(observed_key(), v@),
        None => Seq::empty(),
    })
        + footer_line(stream_key(), ctx.stream.display_name@)
        + footer_line(worktree_key(), ctx.stream.worktree_id@)
}

/// The footer block of a checkpoint message.
pub open spec fn footers(ctx: CheckpointMessageContext) -> Seq<char> {
    origin_footers(ctx) + head_footers(ctx) + stream_footers(ctx)
}

/// A checkpoint message: the subject, a blank line and the footers.
pub open spec fn spec_checkpoint_message(ctx: CheckpointMessageContext) -> Seq<char> {
    ctx.subject@ + "\n\n"@ + footers(ctx)
}

/// Appends a footer line.
fn push_footer(out: &mut String, key: &str, value: &str)
    ensures
        final(out)@ == old(out)@ + footer_line(key@, value@),
{
    push_str(out, key);
    push_str(out, ": ");
    push_str(out, value);
    push_str(out, "\n");
    proof {
        reveal_strlit(": ");
        reveal_strlit("\n");
        assert(final(out)@ =~= old(out)@ + footer_line(key@, value@));
    }
}

/// The debug name of a pending source.
pub fn source_name_exec(s: PendingSource) -> (r: &'static str)
    ensures
        r@ == source_name(s),
{
    match s {
        PendingSource::TurnLocal => "TurnLocal",
        PendingSource::Inherited => "Inherited",
        PendingSource::Mixed => "Mixed",
        PendingSource::External => "External",
    }
}

fn push_origin_footers(out: &mut String, ctx: &CheckpointMessageContext<'_>)
    ensures
        final(out)@ == old(out)@ + origin_footers(*ctx),
{
    let ghost start = out@;
    let generation = string_of(decimal_chars(ctx.generation).as_slice());
    push_footer(out, "Sprocket-Generation", generation.as_str());
    push_footer(out, "Sprocket-Source", source_name_exec(ctx.source));
    push_footer(out, "Sprocket-Policy-Epoch", ctx.policy_epoch.0.as_str());
    assert(out@ =~= start + origin_footers(*ctx));
}

fn class_string(class: &StreamClass) -> (s: String)
    ensures
        s@ == class_text(*class),
{
    match class {
        StreamClass::Branch { symref } => {
            let mut c = String::from_str("branch:");
            push_str(&mut c, symref.as_str());
            c
        },
        StreamClass::DetachedHead => String::from_str("detached_head"),
    }
}

fn push_head_footers(out: &mut String, ctx: &CheckpointMessageContext<'_>)
    ensures
        final(out)@ == old(out)@ + head_footers(*ctx),
{
    let ghost start = out@;
    let class = class_string(&ctx.stream.class);
    push_footer(out, "Sprocket-Stream-Class", class.as_str());
    match &ctx.head.symref {
        Some(r) => push_footer(out, "Sprocket-Observed-Head-Ref", r.as_str()),
        None => push_footer(out, "Sprocket-Observed-Head-Ref", "none"),
    }
    match &ctx.head.oid {
        Some(o) => push_footer(out, "Sprocket-Observed-Head-Oid", o.as_str()),
        None => push_footer(out, "Sprocket-Observed-Head-Oid", "none"),
    }
    push_footer(
        out,
        "Sprocket-Materialized-Fingerprint",
        ctx.snapshot.materialized_fingerprint.as_str(),
    );
    assert(out@ =~= start + head_footers(*ctx));
}

fn push_stream_footers(out: &mut String, ctx: &CheckpointMessageContext<'_>)
    ensures
        final(out)@ == old(out)@ + stream_footers(*ctx),
{
    let ghost start = out@;
    match &ctx.snapshot.observed_fingerprint {
        Some(v) => push_footer(out, "Sprocket-Observed-Fingerprint", v.as_str()),
        None => {},
    }
    push_footer(out, "Sprocket-Stream", ctx.stream.display_name.as_str());
    push_footer(out, "Sprocket-Worktree", ctx.stream.worktree_id.as_str());
    assert(out@ =~= start + stream_footers(*ctx));
}

/// Writes a checkpoint commit message: the subject, then footers recording the generation,
/// source, policy epoch, stream class, observed HEAD, fingerprints, stream and worktree.
pub fn build_checkpoint_message(ctx: CheckpointMessageContext<'_>) -> (msg: String)
    ensures
        msg@ == spec_checkpoint_message(ctx),
{
    let mut out = String::new();
    push_str(&mut out, ctx.subject);
    push_str(&mut out, "\n\n");
    push_origin_footers(&mut out, &ctx);
    push_head_footers(&mut out, &ctx);
    push_stream_footers(&mut out, &ctx);
    assert(out@ =~= spec_checkpoint_message(ctx));
    out
}

/// Checkpoint metadata as a mathematical value.
pub struct MetadataView {
    pub generation: u64,
    pub policy_epoch: Seq<char>,
    pub stream_class: ClassView,
    pub observed_head_ref: Option<Seq<char>>,
    pub observed_head_oid: Option<Seq<char>>,
    pub materialized_fingerprint: Seq<char>,
    pub observed_fingerprint: Option<Seq<char>>,
}

impl View for CheckpointMetadata {
    type V = MetadataView;

    open spec fn view(&self) -> MetadataView {
        MetadataView {
            generation: self.generation,
            policy_epoch: self.policy_epoch@,
            stream_class: self.stream_class@,
            observed_head_ref: opt_text(self.observed_head_ref),
            observed_head_oid: opt_text(self.observed_head_oid),
            materialized_fingerprint: self.materialized_fingerprint@,
            observed_fingerprint: opt_text(self.observed_fingerprint),
        }
    }
}

/// A metadata error as a mathematical value.
pub enum MetadataErrorView {
    MissingFooter(Seq<char>),
    InvalidGeneration(Seq<char>),
    UnsupportedStreamClass(Seq<char>),
}

impl View for MetadataError {
    type V = MetadataErrorView;

    open spec fn view(&self) -> MetadataErrorView {
        match self {
            MetadataError::MissingFooter(k) => MetadataErrorView::MissingFooter(k@),
            MetadataError::InvalidGeneration(v) => MetadataErrorView::InvalidGeneration(v@),
            MetadataError::UnsupportedStreamClass(v) => MetadataErrorView::UnsupportedStreamClass(
                v@,
            ),
        }
    }
}

/// The stream class a footer value names: `branch:` and the symbolic ref, or `detached_head`.
pub open spec fn class_of_text(v: Seq<char>) -> Option<ClassView> {
    match strip_prefix(v, "branch:"@) {
        Some(r) => Some(ClassView::Branch(r)),
        None => if v == "detached_head"@ {
            Some(ClassView::DetachedHead)
        } else {
            None
        },
    }
}

/// An optional footer: an absent footer and the value `none` both mean no value.
pub open spec fn optional_value(v: Option<Seq<char>>) -> Option<Seq<char>> {
    match v {
        Some(x) => if x == "none"@ {
            None
        } else {
            Some(x)
        },
        None => None,
    }
}

/// What a commit message gives as checkpoint metadata: the generation, policy epoch, stream
/// class and materialized fingerprint footers are required (in this order of checking), the
/// generation must be an unsigned integer and the class a known one.
pub open spec fn spec_parse_checkpoint_metadata(m: Seq<char>) -> Result<
    MetadataView,
    MetadataErrorView,
> {
    let generation = footer_value(m, generation_key());
    let epoch = footer_value(m, epoch_key());
    let class = footer_value(m, class_key());
    let materialized = footer_value(m, materialized_key());
    if generation is None {
        Err(MetadataErrorView::MissingFooter(generation_key()))
    } else if parse_u64(generation->0) is None {
        Err(MetadataErrorView::InvalidGeneration(generation->0))
    } else if epoch is None {
        Err(MetadataErrorView::MissingFooter(epoch_key()))
    } else if class is None {
        Err(MetadataErrorView::MissingFooter(class_key()))
    } else if class_of_text(class->0) is None {
        Err(MetadataErrorView::UnsupportedStreamClass(class->0))
    } else if materialized is None {
        Err(MetadataErrorView::MissingFooter(materialized_key()))
    } else {
        Ok(
            MetadataView {
                generation: parse_u64(generation->0)->0,
                policy_epoch: epoch->0,
                stream_class: class_of_text(class->0)->0,
                observed_head_ref: optional_value(footer_value(m, head_ref_key())),
                observed_head_oid: optional_value(footer_value(m, head_oid_key())),
                materialized_fingerprint: materialized->0,
                observed_fingerprint: optional_value(footer_value(m, observed_key())),
            },
        )
    }
}

/// The mathematical value of a parse result.
pub open spec fn metadata_outcome(r: Result<CheckpointMetadata, MetadataError>) -> Result<
    MetadataView,
    MetadataErrorView,
> {
    match r {
        Ok(m) => Ok(m@),
        Err(e) => Err(e@),
    }
}

/// The value of a footer of a message.
fn footer(message: &[char], key: &str) -> (r: Option<Vec<char>>)
    ensures
        opt_chars(r) == footer_value(message@, key@),
{
    let k = chars_of(key);
    footer_value_chars(message, k.as_slice())
}

/// Reads a stream class from its footer value.
fn parse_stream_class(value: &[char]) -> (r: Option<StreamClass>)
    ensures
        r matches Some(c) ==> class_of_text(value@) == Some(c@),
        r is None ==> class_of_text(value@) is None,
{
    let prefix = chars_of("branch:");
    if chars_start_with(value, prefix.as_slice()) {
        let symref = string_of(chars_range(value, prefix.len(), value.len()).as_slice());
        return Some(StreamClass::Branch { symref });
    }
    let detached = chars_of("detached_head");
    if chars_equal(value, detached.as_slice()) {
        Some(StreamClass::DetachedHead)
    } else {
        None
    }
}

/// An optional footer value: `none` reads as no value.
fn optional_footer(value: Option<Vec<char>>) -> (r: Option<String>)
    ensures
        opt_text(r) == optional_value(opt_chars(value)),
{
    match value {
        Some(v) => {
            let none = chars_of("none");
            if chars_equal(v.as_slice(), none.as_slice()) {
                None
            } else {
                Some(string_of(v.as_slice()))
            }
        },
        None => None,
    }
}

/// Reads the checkpoint metadata back from the footers of a commit message. When a key
/// occurs on several lines, the last one counts.
pub fn parse_checkpoint_metadata(message: &str) -> (r: Result<CheckpointMetadata, MetadataError>)
    ensures
        metadata_outcome(r) == spec_parse_checkpoint_metadata(message@),
{
    let m = chars_of(message);
    let m = m.as_slice();
    let generation = match footer(m, "Sprocket-Generation") {
        Some(v) => v,
        None => return Err(MetadataError::MissingFooter(String::from_str("Sprocket-Generation"))),
    };
    let generation_value = match parse_u64_chars(generation.as_slice()) {
        Some(n) => n,
        None => return Err(MetadataError::InvalidGeneration(string_of(generation.as_slice()))),
    };
    let policy_epoch = match footer(m, "Sprocket-Policy-Epoch") {
        Some(v) => string_of(v.as_slice()),
        None => return Err(
            MetadataError::MissingFooter(String::from_str("Sprocket-Policy-Epoch")),
        ),
    };
    let class = match footer(m, "Sprocket-Stream-Class") {
        Some(v) => v,
        None => return Err(
            MetadataError::MissingFooter(String::from_str("Sprocket-Stream-Class")),
        ),
    };
    let stream_class = match parse_stream_class(class.as_slice()) {
        Some(c) => c,
        None => return Err(MetadataError::UnsupportedStreamClass(string_of(class.as_slice()))),
    };
    let observed_head_ref = optional_footer(footer(m, "Sprocket-Observed-Head-Ref"));
    let observed_head_oid = optional_footer(footer(m, "Sprocket-Observed-Head-Oid"));
    let materialized_fingerprint = match footer(m, "Sprocket-Materialized-Fingerprint") {
        Some(v) => string_of(v.as_slice()),
        None => return Err(
            MetadataError::MissingFooter(String::from_str("Sprocket-Materialized-Fingerprint")),
        ),
    };
    let observed_fingerprint = optional_footer(footer(m, "Sprocket-Observed-Fingerprint"));
    Ok(
        CheckpointMetadata {
            generation: generation_value,
            policy_epoch,
            stream_class,
            observed_head_ref,
            observed_head_oid,
            materialized_fingerprint,
            observed_fingerprint,
        },
    )
}

/// The metadata a checkpoint message records of its context.
pub open spec fn recorded_metadata(ctx: CheckpointMessageContext) -> MetadataView {
    MetadataView {
        generation: ctx.generation,
        policy_epoch: ctx.policy_epoch.0@,
        stream_class: ctx.stream.class@,
        observed_head_ref: opt_text(ctx.head.symref),
        observed_head_oid: opt_text(ctx.head.oid),
        materialized_fingerprint: ctx.snapshot.materialized_fingerprint@,
        observed_fingerprint: opt_text(ctx.snapshot.observed_fingerprint),
    }
}

/// An optional value that a footer can carry and give back: a single line other than `none`.
pub open spec fn optional_footer_value(v: Option<String>) -> bool {
    match v {
        Some(x) => single_line(x@) && x@ != "none"@,
        None => true,
    }
}

/// The values of a context that its footers can carry and give back: those read back each
/// on a single line, the optional ones other than `none`; the stream name and worktree id
/// (written, never read back) without a newline; and, when there is no observed
/// fingerprint, no line of the subject that would read as one.
pub open spec fn footers_carry(ctx: CheckpointMessageContext) -> bool {
    &&& single_line(ctx.policy_epoch.0@)
    &&& single_line(class_text(ctx.stream.class))
    &&& optional_footer_value(ctx.head.symref)
    &&& optional_footer_value(ctx.head.oid)
    &&& single_line(ctx.snapshot.materialized_fingerprint@)
    &&& optional_footer_value(ctx.snapshot.observed_fingerprint)
    &&& no_newline(ctx.stream.display_name@)
    &&& no_newline(ctx.stream.worktree_id@)
    &&& ctx.snapshot.observed_fingerprint is None ==> footer_value(
        ctx.subject@.push('\n'),
        observed_key(),
    ) is None
}

proof fn lemma_keys()
    ensures
        plain_key(generation_key()),
        plain_key(source_key()),
        plain_key(epoch_key()),
        plain_key(class_key()),
        plain_key(head_ref_key()),
        plain_key(head_oid_key()),
        plain_key(materialized_key()),
        plain_key(observed_key()),
        plain_key(stream_key()),
        plain_key(worktree_key()),
        generation_key().len() == 19,
        source_key().len() == 15,
        epoch_key().len() == 21,
        class_key().len() == 21,
        head_ref_key().len() == 26,
        head_oid_key().len() == 26,
        materialized_key().len() == 33,
        observed_key().len() == 29,
        stream_key().len() == 15,
        worktree_key().len() == 17,
        epoch_key() != class_key(),
        head_ref_key() != head_oid_key(),
{
    reveal_strlit("Sprocket-Generation");
    reveal_strlit("Sprocket-Source");
    reveal_strlit("Sprocket-Policy-Epoch");
    reveal_strlit("Sprocket-Stream-Class");
    reveal_strlit("Sprocket-Observed-Head-Ref");
    reveal_strlit("Sprocket-Observed-Head-Oid");
    reveal_strlit("Sprocket-Materialized-Fingerprint");
    reveal_strlit("Sprocket-Observed-Fingerprint");
    reveal_strlit("Sprocket-Stream");
    reveal_strlit("Sprocket-Worktree");
    assert(epoch_key()[9] != class_key()[9]);
    assert(head_ref_key()[23] != head_oid_key()[23]);
}

proof fn lemma_fixed_values(ctx: CheckpointMessageContext)
    ensures
        single_line(decimal(ctx.generation as nat)),
        single_line(source_name(ctx.source)),
        single_line("none"@),
        class_of_text(class_text(ctx.stream.class)) == Some(ctx.stream.class@),
{
    lemma_decimal_digits(ctx.generation as nat);
    reveal_strlit("TurnLocal");
    reveal_strlit("Inherited");
    reveal_strlit("Mixed");
    reveal_strlit("External");
    reveal_strlit("none");
    reveal_strlit("branch:");
    reveal_strlit("detached_head");
    match ctx.stream.class {
        StreamClass::Branch { symref } => {
            let t = "branch:"@ + symref@;
            assert(t.subrange(0, 7) =~= "branch:"@);
            assert(t.subrange(7, t.len() as int) =~= symref@);
        },
        StreamClass::DetachedHead => {
            assert("detached_head"@.subrange(0, 7)[0] != "branch:"@[0]);
        },
    }
}

/// An optional footer written as `or_none` reads back as the value it was written from.
proof fn lemma_optional_back(v: Option<String>)
    requires
        optional_footer_value(v),
    ensures
        optional_value(Some(or_none(v))) == opt_text(v),
{
}

proof fn lemma_origin_footers(m: Seq<char>, ctx: CheckpointMessageContext)
    requires
        m.len() > 0,
        m.last() == '\n',
        footers_carry(ctx),
    ensures
        (m + origin_footers(ctx)).last() == '\n',
        footer_value(m + origin_footers(ctx), generation_key()) == Some(
            decimal(ctx.generation as nat),
        ),
        footer_value(m + origin_footers(ctx), epoch_key()) == Some(ctx.policy_epoch.0@),
        forall|key: Seq<char>|
            key != generation_key() && key != source_key() && key != epoch_key() ==> #[trigger] footer_value(
                m + origin_footers(ctx),
                key,
            ) == footer_value(m, key),
{
    lemma_keys();
    lemma_fixed_values(ctx);
    let m1 = m + footer_line(generation_key(), decimal(ctx.generation as nat));
    lemma_append_footer(m, generation_key(), decimal(ctx.generation as nat));
    let m2 = m1 + footer_line(source_key(), source_name(ctx.source));
    lemma_append_footer(m1, source_key(), source_name(ctx.source));
    let m3 = m2 + footer_line(epoch_key(), ctx.policy_epoch.0@);
    lemma_append_footer(m2, epoch_key(), ctx.policy_epoch.0@);
    assert(m + origin_footers(ctx) =~= m3);
}

proof fn lemma_head_footers(m: Seq<char>, ctx: CheckpointMessageContext)
    requires
        m.len() > 0,
        m.last() == '\n',
        footers_carry(ctx),
    ensures
        (m + head_footers(ctx)).last() == '\n',
        footer_value(m + head_footers(ctx), class_key()) == Some(class_text(ctx.stream.class)),
        footer_value(m + head_footers(ctx), head_ref_key()) == Some(or_none(ctx.head.symref)),
        footer_value(m + head_footers(ctx), head_oid_key()) == Some(or_none(ctx.head.oid)),
        footer_value(m + head_footers(ctx), materialized_key()) == Some(
            ctx.snapshot.materialized_fingerprint@,
        ),
        forall|key: Seq<char>|
            key != class_key() && key != head_ref_key() && key != head_oid_key() && key
                != materialized_key() ==> #[trigger] footer_value(
                m + head_footers(ctx),
                key,
            ) == footer_value(m, key),
{
    lemma_keys();
    lemma_fixed_values(ctx);
    let m1 = m + footer_line(class_key(), class_text(ctx.stream.class));
    lemma_append_footer(m, class_key(), class_text(ctx.stream.class));
    let m2 = m1 + footer_line(head_ref_key(), or_none(ctx.head.symref));
    lemma_append_footer(m1, head_ref_key(), or_none(ctx.head.symref));
    let m3 = m2 + footer_line(head_oid_key(), or_none(ctx.head.oid));
    lemma_append_footer(m2, head_oid_key(), or_none(ctx.head.oid));
    let m4 = m3 + footer_line(materialized_key(), ctx.snapshot.materialized_fingerprint@);
    lemma_append_footer(m3, materialized_key(), ctx.snapshot.materialized_fingerprint@);
    assert(m + head_footers(ctx) =~= m4);
}

proof fn lemma_stream_footers(m: Seq<char>, ctx: CheckpointMessageContext)
    requires
        m.len() > 0,
        m.last() == '\n',
        footers_carry(ctx),
    ensures
        footer_value(m + stream_footers(ctx), observed_key()) == (match ctx.snapshot.observed_fingerprint {
            Some(v) => Some(v@),
            None => footer_value(m, observed_key()),
        }),
        forall|key: Seq<char>|
            key != observed_key() && key != stream_key() && key != worktree_key() ==> #[trigger] footer_value(
                m + stream_footers(ctx),
                key,
            ) == footer_value(m, key),
{
    lemma_keys();
    let m1 = match ctx.snapshot.observed_fingerprint {
        Some(v) => m + footer_line(observed_key(), v@),
        None => m,
    };
    match ctx.snapshot.observed_fingerprint {
        Some(v) => {
            lemma_append_footer(m, observed_key(), v@);
        },
        None => {
            assert(m + Seq::<char>::empty() =~= m);
        },
    }
    let m2 = m1 + footer_line(stream_key(), ctx.stream.display_name@);
    lemma_append_other_footer(m1, stream_key(), ctx.stream.display_name@);
    let m3 = m2 + footer_line(worktree_key(), ctx.stream.worktree_id@);
    lemma_append_other_footer(m2, worktree_key(), ctx.stream.worktree_id@);
    assert(m + stream_footers(ctx) =~= m3);
}

/// The blank line after the subject holds no footer.
proof fn lemma_subject_block(subject: Seq<char>)
    ensures
        forall|key: Seq<char>| #[trigger]
            footer_value(subject + "\n\n"@, key) == footer_value(subject.push('\n'), key),
{
    reveal_strlit("\n\n");
    let base = subject.push('\n');
    assert(subject + "\n\n"@ =~= base + seq!['\n']);
    assert(lines_from(seq!['\n'], Seq::empty()) =~= seq![Seq::<char>::empty()]) by {
        assert(seq!['\n'].drop_first() =~= Seq::<char>::empty());
        assert(lines_from(Seq::<char>::empty(), Seq::empty()) =~= Seq::<Seq<char>>::empty());
    }
    lemma_text_lines_concat(base, seq!['\n']);
    assert(text_lines(base + seq!['\n']) =~= text_lines(base).push(Seq::<char>::empty()));
    assert forall|key: Seq<char>| #[trigger]
        footer_value(subject + "\n\n"@, key) == footer_value(base, key) by {
        lemma_lookup_push(text_lines(base), Seq::<char>::empty(), key);
    }
}

/// A subject without a newline that does not begin with `Sprocket-` reads as no
/// observed-fingerprint footer.
proof fn lemma_plain_subject(subject: Seq<char>)
    requires
        no_newline(subject),
        !starts_with(subject, "Sprocket-"@),
    ensures
        footer_value(subject.push('\n'), observed_key()) is None,
{
    reveal_strlit("Sprocket-Observed-Fingerprint");
    reveal_strlit("Sprocket-");
    lemma_single_line(subject, Seq::empty());
    assert(Seq::<char>::empty() + subject =~= subject);
    let l = strip_cr(subject);
    assert(text_lines(subject.push('\n')) == seq![l]);
    assert(seq![l].drop_last() =~= Seq::<Seq<char>>::empty());
    lemma_first_occurrence_from(l, seq![':', ' '], 0);
    assert(seq![l].last() == l);
    assert(lookup_line(Seq::<Seq<char>>::empty(), observed_key()) is None);
    match first_occurrence_from(l, seq![':', ' '], 0) {
        Some(i) => {
            assert(occurs_at(l, seq![':', ' '], i));
            assert(i + 2 <= l.len());
            if l.take(i) == observed_key() {
                assert(l.take(i).len() == i);
                assert(observed_key().len() == 29);
                assert(l.subrange(0, 9) =~= "Sprocket-"@) by {
                    assert forall|k: int| 0 <= k < 9 implies l[k] == "Sprocket-"@[k] by {
                        assert(l.take(i)[k] == l[k]);
                    }
                }
                assert(subject.subrange(0, 9) =~= l.subrange(0, 9));
            }
        },
        None => {},
    }
}

/// A message reads back as what it records when no value in it holds a newline, its subject
/// does not begin with `Sprocket-`, and the values read back do not end in a carriage
/// return (which line splitting drops) and, for the optional ones, are not `none`.
pub proof fn law_plain_message_reads_back(ctx: CheckpointMessageContext)
    requires
        no_newline(ctx.subject@),
        !starts_with(ctx.subject@, "Sprocket-"@),
        single_line(ctx.policy_epoch.0@),
        single_line(class_text(ctx.stream.class)),
        optional_footer_value(ctx.head.symref),
        optional_footer_value(ctx.head.oid),
        single_line(ctx.snapshot.materialized_fingerprint@),
        optional_footer_value(ctx.snapshot.observed_fingerprint),
        no_newline(ctx.stream.display_name@),
        no_newline(ctx.stream.worktree_id@),
    ensures
        spec_parse_checkpoint_metadata(spec_checkpoint_message(ctx)) == Ok::<
            MetadataView,
            MetadataErrorView,
        >(recorded_metadata(ctx)),
{
    lemma_plain_subject(ctx.subject@);
    law_parse_reads_back_build(ctx);
}

/// What a checkpoint message records is what `parse_checkpoint_metadata` reads back from it:
/// the generation, policy epoch, stream class, observed HEAD, and both fingerprints, for every
/// context whose values its footers can carry.
pub proof fn law_parse_reads_back_build(ctx: CheckpointMessageContext)
    requires
        footers_carry(ctx),
    ensures
        spec_parse_checkpoint_metadata(spec_checkpoint_message(ctx)) == Ok::<
            MetadataView,
            MetadataErrorView,
        >(recorded_metadata(ctx)),
{
    lemma_keys();
    lemma_fixed_values(ctx);
    reveal_strlit("\n\n");
    let m0 = ctx.subject@ + "\n\n"@;
    lemma_subject_block(ctx.subject@);
    let m1 = m0 + origin_footers(ctx);
    lemma_origin_footers(m0, ctx);
    let m2 = m1 + head_footers(ctx);
    lemma_head_footers(m1, ctx);
    let m3 = m2 + stream_footers(ctx);
    lemma_stream_footers(m2, ctx);
    assert(spec_checkpoint_message(ctx) =~= m3);
    lemma_parse_decimal(ctx.generation);
    lemma_optional_back(ctx.head.symref);
    lemma_optional_back(ctx.head.oid);
    assert(footer_value(m3, generation_key()) == Some(decimal(ctx.generation as nat)));
    assert(footer_value(m3, epoch_key()) == Some(ctx.policy_epoch.0@));
    assert(footer_value(m3, class_key()) == Some(class_text(ctx.stream.class)));
    assert(footer_value(m3, head_ref_key()) == Some(or_none(ctx.head.symref)));
    assert(footer_value(m3, head_oid_key()) == Some(or_none(ctx.head.oid)));
    assert(footer_value(m3, materialized_key()) == Some(ctx.snapshot.materialized_fingerprint@));
    assert(footer_value(m2, observed_key()) == footer_value(m0, observed_key()));
}

/// The commit a hidden checkpoint was written as.
#[derive(Debug, Clone)]
pub struct PreparedHiddenCheckpoint {
    pub commit_oid: String,
}

/// The test that keeps an owned path.
pub open spec fn owned_path(policy: Policy) -> spec_fn(RepoPath) -> bool {
    |p: RepoPath| spec_matches_owned_path(policy, p@)
}

/// The paths the policy owns, in their order.
pub fn owned_paths_only(policy: &Policy, paths: Vec<RepoPath>) -> (r: Vec<RepoPath>)
    ensures
        r@ == paths@.filter(owned_path(*policy)),
{
    let ghost orig = paths@;
    let mut rest = paths;
    let mut r: Vec<RepoPath> = Vec::new();
    let ghost mut i: int = 0;
    assert(orig.take(0).filter(owned_path(*policy)) =~= Seq::<RepoPath>::empty()) by {
        reveal(Seq::filter);
    }
    assert(orig.skip(0) =~= orig);
    while rest.len() > 0
        invariant
            0 <= i <= orig.len(),
            rest@ == orig.skip(i),
            r@ == orig.take(i).filter(owned_path(*policy)),
        decreases rest.len(),
    {
        let p = rest.remove(0);
        proof {
            reveal(Seq::filter);
            assert(orig.take(i + 1).drop_last() =~= orig.take(i));
            assert(orig.take(i + 1).last() == p);
            i = i + 1;
            assert(rest@ =~= orig.skip(i));
        }
        if policy.matches_owned_path(&p) {
            r.push(p);
        }
    }
    assert(orig.take(orig.len() as int) =~= orig);
    r
}

/// Some entry of the snapshot has this path.
pub open spec fn snapshot_has_path(snapshot: StrictSnapshot, p: Seq<u8>) -> bool {
    exists|j: int| 0 <= j < snapshot.entries@.len() && (#[trigger] snapshot.entries@[j]).path@ == p
}

fn snapshot_path_index(snapshot: &StrictSnapshot, p: &RepoPath) -> (r: bool)
    ensures
        r == snapshot_has_path(*snapshot, p@),
{
    let mut j: usize = 0;
    while j < snapshot.entries.len()
        invariant
            j <= snapshot.entries@.len(),
            forall|k: int| 0 <= k < j ==> (#[trigger] snapshot.entries@[k]).path@ != p@,
        decreases snapshot.entries.len() - j,
    {
        if snapshot.entries[j].path.same_as(p) {
            return true;
        }
        j = j + 1;
    }
    false
}

/// The paths of HEAD that the checkpoint must drop: those owned at HEAD that the snapshot
/// no longer has (none when there is no HEAD commit), in their order.
pub open spec fn spec_deleted_paths(has_head: bool, head_owned: Seq<RepoPath>, snapshot: StrictSnapshot) -> Seq<
    Seq<u8>,
> {
    if has_head {
        head_owned.map_values(|p: RepoPath| p@).filter(|p: Seq<u8>| !snapshot_has_path(snapshot, p))
    } else {
        Seq::empty()
    }
}

/// The paths of HEAD that a hidden checkpoint removes from its index.
pub fn deleted_head_paths(has_head: bool, head_owned: &[RepoPath], snapshot: &StrictSnapshot) -> (r: Vec<RepoPath>)
    ensures
        r@.map_values(|p: RepoPath| p@) == spec_deleted_paths(has_head, head_owned@, *snapshot),
{
    let mut r: Vec<RepoPath> = Vec::new();
    if !has_head {
        assert(r@.map_values(|p: RepoPath| p@) =~= Seq::<Seq<u8>>::empty());
        return r;
    }
    let ghost pred = |p: Seq<u8>| !snapshot_has_path(*snapshot, p);
    let ghost views = head_owned@.map_values(|p: RepoPath| p@);
    let mut i: usize = 0;
    assert(views.take(0).filter(pred) =~= Seq::<Seq<u8>>::empty()) by {
        reveal(Seq::filter);
    }
    while i < head_owned.len()
        invariant
            i <= head_owned@.len(),
            views == head_owned@.map_values(|p: RepoPath| p@),
            pred == (|p: Seq<u8>| !snapshot_has_path(*snapshot, p)),
            r@.map_values(|p: RepoPath| p@) == views.take(i as int).filter(pred),
        decreases head_owned.len() - i,
    {
        let p = &head_owned[i];
        let present = snapshot_path_index(snapshot, p);
        proof {
            reveal(Seq::filter);
            assert(views.take(i + 1).drop_last() =~= views.take(i as int));
            assert(views.take(i + 1).last() == p@);
        }
        if !present {
            let ghost before = r@;
            r.push(p.duplicate());
            assert(r@.map_values(|q: RepoPath| q@) =~= before.map_values(|q: RepoPath| q@).push(p@));
        }
        i = i + 1;
    }
    assert(views.take(head_owned@.len() as int) =~= views);
    r
}

/// The parents of a hidden checkpoint: the previous checkpoint, or else HEAD, or none.
pub open spec fn spec_checkpoint_parents(previous: Option<Seq<char>>, head: Option<Seq<char>>) -> Seq<Seq<char>> {
    match previous {
        Some(p) => seq![p],
        None => match head {
            Some(h) => seq![h],
            None => Seq::empty(),
        },
    }
}

/// The parents of a hidden checkpoint commit.
pub fn checkpoint_parents(previous_hidden_oid: Option<&str>, head_oid: Option<&str>) -> (r: Vec<String>)
    ensures
        r@.map_values(|s: String| s@) == spec_checkpoint_parents(
            crate::engine::repair::opt_str(previous_hidden_oid),
            crate::engine::repair::opt_str(head_oid),
        ),
{
    let mut r: Vec<String> = Vec::new();
    match previous_hidden_oid {
        Some(p) => r.push(p.to_string()),
        None => match head_oid {
            Some(h) => r.push(h.to_string()),
            None => {},
        },
    }
    assert(r@.map_values(|s: String| s@) =~= spec_checkpoint_parents(
        crate::engine::repair::opt_str(previous_hidden_oid),
        crate::engine::repair::opt_str(head_oid),
    ));
    r
}

} // verus!
