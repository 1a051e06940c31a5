//! Release assets and what is derived from their names.

use crate::text::{ends_with, str_ends_with, strip_suffix, without_suffix};
use vstd::prelude::*;
use vstd::string::*;

verus! {

/// One downloadable file of a release.
#[derive(Debug, PartialEq, Eq)]
pub struct ReleaseAsset {
    /// The file name.
    pub name: String,
    /// Where the file is fetched from.
    pub browser_download_url: String,
    /// The size in bytes that the feed gives for it.
    pub size: u32,
}

/// A `ReleaseAsset` with its strings as sequences of characters.
pub struct AssetView {
    pub name: Seq<char>,
    pub browser_download_url: Seq<char>,
    pub size: u32,
}

impl View for ReleaseAsset {
    type V = AssetView;

    open spec fn view(&self) -> AssetView {
        AssetView {
            name: self.name@,
            browser_download_url: self.browser_download_url@,
            size: self.size,
        }
    }
}

impl Clone for ReleaseAsset {
    fn clone(&self) -> (copy: Self)
        ensures
            copy == *self,
    {
        ReleaseAsset {
            name: self.name.clone(),
            browser_download_url: self.browser_download_url.clone(),
            size: self.size,
        }
    }
}

/// The assets of one release, as the feed lists them.
#[derive(Debug, PartialEq, Eq)]
pub struct Release {
    pub assets: Vec<ReleaseAsset>,
}

/// The views of a sequence of assets.
pub open spec fn views(assets: Seq<ReleaseAsset>) -> Seq<AssetView> {
    assets.map_values(|a: ReleaseAsset| a@)
}

/// The suffix that marks an installable bundle, `.tar.xz`.
pub open spec fn archive_suffix() -> Seq<char> {
    seq!['.', 't', 'a', 'r', '.', 'x', 'z']
}

/// Whether a name is that of an installable bundle.
pub open spec fn supported_name(name: Seq<char>) -> bool {
    ends_with(name, archive_suffix())
}

/// The name shown for an asset: its name without the archive suffix.
pub open spec fn shown_name(name: Seq<char>) -> Seq<char> {
    without_suffix(name, archive_suffix())
}

impl ReleaseAsset {
    /// The name under which the asset is shown.
    pub fn display_name(&self) -> (shown: String)
        ensures
            shown@ == shown_name(self.name@),
    {
        proof {
            reveal_strlit(".tar.xz");
            assert(".tar.xz"@ =~= archive_suffix());
        }
        strip_suffix(self.name.as_str(), ".tar.xz")
    }

    /// Whether this asset is a bundle that can be installed.
    pub fn is_supported(&self) -> (supported: bool)
        ensures
            supported == supported_name(self.name@),
    {
        proof {
            reveal_strlit(".tar.xz");
            assert(".tar.xz"@ =~= archive_suffix());
        }
        str_ends_with(self.name.as_str(), ".tar.xz")
    }
}

/// Stripping the suffix from a shown name changes nothing, unless what is
/// left still ends with the suffix.
pub proof fn lemma_shown_name_idempotent(name: Seq<char>)
    requires
        !supported_name(shown_name(name)),
    ensures
        shown_name(shown_name(name)) == shown_name(name),
{
}

} // verus!
