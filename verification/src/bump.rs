//! The bump engine: the six bump kinds, the decision function that maps a
//! current version and a kind to the next version, and the laws that the
//! decision obeys.
use vstd::prelude::*;

use crate::version::{
    alpha_counter, alpha_seq, lemma_alpha_seq, next_counter, wf_model, SemVer, VersionModel,
};

verus! {

/// The closed set of bump operations.
#[derive(Clone, Copy, Debug, PartialEq, Eq, Structural)]
pub enum VersionBump {
    Prepatch,
    Patch,
    Preminor,
    Minor,
    Major,
    Skip,
}

/// Display colors for the report line; presentation only.
#[derive(Clone, Copy, Debug, PartialEq, Eq, Structural)]
pub enum BumpColor {
    Red,
    Blue,
    Green,
    Yellow,
    White,
}

impl VersionBump {
    /// Pre-release kinds advance the alpha counter instead of finalizing a
    /// release.
    pub open spec fn spec_is_pre(self) -> bool {
        match self {
            VersionBump::Prepatch | VersionBump::Preminor => true,
            VersionBump::Patch | VersionBump::Minor | VersionBump::Major | VersionBump::Skip
                => false,
        }
    }

    pub fn is_pre(self) -> (r: bool)
        ensures
            r == self.spec_is_pre(),
    {
        match self {
            VersionBump::Prepatch | VersionBump::Preminor => true,
            VersionBump::Patch | VersionBump::Minor | VersionBump::Major | VersionBump::Skip => {
                false
            },
        }
    }
}

/// What `apply` returns, on the mathematical model. `had` is the
/// pre-release state captured before any change: a version whose text is a
/// recognized `alpha.N` counter is mid pre-release, anything else counts as
/// released. Build metadata never survives a bump; `Skip` changes nothing
/// else.
pub open spec fn spec_apply(kind: VersionBump, m: VersionModel) -> VersionModel {
    let had = alpha_counter(m.pre) is Some;
    let pre1 = if kind.spec_is_pre() {
        alpha_seq(next_counter(m.pre))
    } else {
        Seq::<u8>::empty()
    };
    match kind {
        VersionBump::Skip => VersionModel { build: Seq::<u8>::empty(), ..m },
        VersionBump::Major => VersionModel {
            major: m.major + 1,
            minor: 0,
            patch: 0,
            pre: pre1,
            build: Seq::<u8>::empty(),
        },
        VersionBump::Minor => if had {
            VersionModel { patch: 0, pre: pre1, build: Seq::<u8>::empty(), ..m }
        } else {
            VersionModel { minor: m.minor + 1, patch: 0, pre: pre1, build: Seq::<u8>::empty(), ..m }
        },
        VersionBump::Patch => if had {
            VersionModel { pre: pre1, build: Seq::<u8>::empty(), ..m }
        } else {
            VersionModel { patch: m.patch + 1, pre: pre1, build: Seq::<u8>::empty(), ..m }
        },
        VersionBump::Preminor => if had {
            VersionModel { pre: pre1, build: Seq::<u8>::empty(), ..m }
        } else {
            VersionModel { minor: m.minor + 1, patch: 0, pre: pre1, build: Seq::<u8>::empty(), ..m }
        },
        VersionBump::Prepatch => if had {
            VersionModel { pre: pre1, build: Seq::<u8>::empty(), ..m }
        } else {
            VersionModel { patch: m.patch + 1, pre: pre1, build: Seq::<u8>::empty(), ..m }
        },
    }
}

/// The machine-limit side conditions under which `apply` cannot overflow a
/// `u64`: only the component that the kind increments is constrained.
pub open spec fn apply_fits(kind: VersionBump, m: VersionModel) -> bool {
    let had = alpha_counter(m.pre) is Some;
    match kind {
        VersionBump::Skip => true,
        VersionBump::Major => m.major < u64::MAX,
        VersionBump::Minor => !had ==> m.minor < u64::MAX,
        VersionBump::Patch => !had ==> m.patch < u64::MAX,
        VersionBump::Preminor => next_counter(m.pre) <= u64::MAX && (!had ==> m.minor < u64::MAX),
        VersionBump::Prepatch => next_counter(m.pre) <= u64::MAX && (!had ==> m.patch < u64::MAX),
    }
}

impl VersionBump {
    /// The next version for this bump kind: build metadata is discarded, the
    /// pre-release state seen on entry decides whether a numeric component
    /// advances or the staged pre-release is finalized, and pre-release
    /// kinds advance the `alpha.N` counter.
    pub fn apply(self, version: SemVer) -> (r: SemVer)
        requires
            version.wf(),
            apply_fits(self, version@),
        ensures
            r@ == spec_apply(self, version@),
            r.wf(),
    {
        let ghost m0 = version@;
        let version = SemVer { build: Vec::new(), ..version };
        assert(version@.build =~= Seq::<u8>::empty());
        if let VersionBump::Skip = self {
            assert(version@ =~= spec_apply(self, m0));
            return version;
        }
        let has_pre = version.get_pre().is_some();
        proof {
            if self.spec_is_pre() {
                if alpha_counter(m0.pre) is Some {
                    crate::text::lemma_dec_value_nonneg(m0.pre.skip(6));
                }
                lemma_alpha_seq(next_counter(m0.pre));
            }
        }
        let version = if self.is_pre() {
            version.inc_pre()
        } else {
            version.reset_pre()
        };
        let r = match self {
            VersionBump::Major => version.inc_major().reset_minor().reset_patch().reset_pre(),
            VersionBump::Minor => if has_pre {
                version.reset_patch()
            } else {
                version.inc_minor().reset_patch()
            },
            VersionBump::Patch => if has_pre {
                version.reset_pre()
            } else {
                version.inc_patch()
            },
            VersionBump::Preminor => if has_pre {
                version
            } else {
                version.inc_minor().reset_patch()
            },
            VersionBump::Prepatch => if has_pre {
                version
            } else {
                version.inc_patch()
            },
            VersionBump::Skip => version,
        };
        assert(r@ =~= spec_apply(self, m0));
        r
    }

    /// `apply`, guarded: `None` exactly when the component that this kind
    /// would increment is already at `u64::MAX`.
    pub fn try_apply(self, version: SemVer) -> (r: Option<SemVer>)
        requires
            version.wf(),
        ensures
            match r {
                Some(v) => apply_fits(self, version@) && v@ == spec_apply(self, version@)
                    && v.wf(),
                None => !apply_fits(self, version@),
            },
    {
        let counter = version.get_pre();
        let fits = match self {
            VersionBump::Skip => true,
            VersionBump::Major => version.get_major() < u64::MAX,
            VersionBump::Minor => counter.is_some() || version.get_minor() < u64::MAX,
            VersionBump::Patch => counter.is_some() || version.get_patch() < u64::MAX,
            VersionBump::Preminor => match counter {
                Some(n) => n < u64::MAX,
                None => version.get_minor() < u64::MAX,
            },
            VersionBump::Prepatch => match counter {
                Some(n) => n < u64::MAX,
                None => version.get_patch() < u64::MAX,
            },
        };
        if fits {
            Some(self.apply(version))
        } else {
            None
        }
    }

    pub open spec fn spec_description(self) -> Seq<char> {
        match self {
            VersionBump::Major => "major release"@,
            VersionBump::Minor => "minor release"@,
            VersionBump::Patch => "patch release"@,
            VersionBump::Preminor => "pre-minor alpha"@,
            VersionBump::Prepatch => "pre-patch alpha"@,
            VersionBump::Skip => "skip version bump"@,
        }
    }

    /// The human label of this bump kind.
    pub fn description(&self) -> (r: &'static str)
        ensures
            r@ == self.spec_description(),
    {
        match self {
            VersionBump::Major => "major release",
            VersionBump::Minor => "minor release",
            VersionBump::Patch => "patch release",
            VersionBump::Preminor => "pre-minor alpha",
            VersionBump::Prepatch => "pre-patch alpha",
            VersionBump::Skip => "skip version bump",
        }
    }

    pub open spec fn spec_emoji(self) -> Seq<char> {
        match self {
            VersionBump::Major => "ðŸš€"@,
            VersionBump::Minor => "âœ¨"@,
            VersionBump::Patch => "ðŸ”§"@,
            VersionBump::Preminor => "ðŸ§ª"@,
            VersionBump::Prepatch => "ðŸ”¬"@,
            VersionBump::Skip => "â­ï¸"@,
        }
    }

    /// The indicator glyph of this bump kind.
    pub fn emoji(&self) -> (r: &'static str)
        ensures
            r@ == self.spec_emoji(),
    {
        match self {
            VersionBump::Major => "ðŸš€",
            VersionBump::Minor => "âœ¨",
            VersionBump::Patch => "ðŸ”§",
            VersionBump::Preminor => "ðŸ§ª",
            VersionBump::Prepatch => "ðŸ”¬",
            VersionBump::Skip => "â­ï¸",
        }
    }

    pub open spec fn spec_color(self) -> BumpColor {
        match self {
            VersionBump::Major => BumpColor::Red,
            VersionBump::Minor => BumpColor::Blue,
            VersionBump::Patch => BumpColor::Green,
            VersionBump::Preminor | VersionBump::Prepatch => BumpColor::Yellow,
            VersionBump::Skip => BumpColor::White,
        }
    }

    /// The display color of this bump kind.
    pub fn color(&self) -> (r: BumpColor)
        ensures
            r == self.spec_color(),
    {
        match self {
            VersionBump::Major => BumpColor::Red,
            VersionBump::Minor => BumpColor::Blue,
            VersionBump::Patch => BumpColor::Green,
            VersionBump::Preminor | VersionBump::Prepatch => BumpColor::Yellow,
            VersionBump::Skip => BumpColor::White,
        }
    }
}

/// A major bump always fully resets: the result is `(major+1, 0, 0)` with no
/// pre-release and no build metadata, whatever the starting state.
pub proof fn lemma_major_resets(m: VersionModel)
    ensures
        spec_apply(VersionBump::Major, m) == (VersionModel {
            major: m.major + 1,
            minor: 0,
            patch: 0,
            pre: Seq::<u8>::empty(),
            build: Seq::<u8>::empty(),
        }),
{
}

/// `Skip` is the identity up to clearing build metadata: every other
/// component, the pre-release text included, is kept as it is.
pub proof fn lemma_skip_identity(m: VersionModel)
    ensures
        spec_apply(VersionBump::Skip, m) == (VersionModel { build: Seq::<u8>::empty(), ..m }),
{
}

/// A pre-release bump advances the counter by exactly one, starting at 0
/// when no counter is recognized; the bound keeps the new counter
/// representable.
pub proof fn lemma_pre_monotonic(kind: VersionBump, m: VersionModel)
    requires
        kind.spec_is_pre(),
        next_counter(m.pre) <= u64::MAX,
    ensures
        alpha_counter(spec_apply(kind, m).pre) == Some(next_counter(m.pre)),
        alpha_counter(m.pre) is Some ==> next_counter(m.pre) == alpha_counter(
            m.pre,
        )->Some_0 + 1,
        alpha_counter(m.pre) is None ==> next_counter(m.pre) == 0,
{
    if alpha_counter(m.pre) is Some {
        crate::text::lemma_dec_value_nonneg(m.pre.skip(6));
    }
    lemma_alpha_seq(next_counter(m.pre));
}

/// After any bump other than `Skip`, the pre-release state is normal again:
/// a non-pre-release kind leaves no pre-release text at all, a pre-release
/// kind leaves exactly the advanced counter; build metadata is gone either
/// way.
pub proof fn lemma_bump_normalizes_pre(kind: VersionBump, m: VersionModel)
    requires
        !(kind is Skip),
        next_counter(m.pre) <= u64::MAX,
    ensures
        kind.spec_is_pre() ==> alpha_counter(spec_apply(kind, m).pre) == Some(
            next_counter(m.pre),
        ),
        !kind.spec_is_pre() ==> spec_apply(kind, m).pre == Seq::<u8>::empty(),
        spec_apply(kind, m).build == Seq::<u8>::empty(),
{
    if kind.spec_is_pre() {
        lemma_pre_monotonic(kind, m);
    }
}

/// Pre-release text that is not a recognized `alpha.N` counter is invisible
/// to the decision: every kind except `Skip` (which copies the text through)
/// treats the version as if it had no pre-release at all.
pub proof fn lemma_non_alpha_invisible(kind: VersionBump, m: VersionModel)
    requires
        alpha_counter(m.pre) is None,
        !(kind is Skip),
    ensures
        spec_apply(kind, m) == spec_apply(kind, (VersionModel { pre: Seq::<u8>::empty(), ..m })),
{
    let m2 = VersionModel { pre: Seq::<u8>::empty(), ..m };
    assert(alpha_counter(m2.pre) is None);
    assert(next_counter(m.pre) == 0 && next_counter(m2.pre) == 0);
    assert(spec_apply(kind, m) =~= spec_apply(kind, m2));
}

} // verus!
