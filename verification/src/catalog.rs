//! The catalog of installable assets: what a release offers, in the order
//! in which it is shown.

use crate::asset::{supported_name, Release, ReleaseAsset};
use crate::error::FetchError;
use crate::text::{
    chars_le, chars_of, lemma_lex_le_antisymmetric, lemma_lex_le_reflexive, lemma_lex_le_total,
    lemma_lex_le_transitive, lex_le, lowercase, to_lowercase,
};
use vstd::prelude::*;

verus! {

/// What came of asking the release feed.
#[derive(Debug, PartialEq, Eq)]
pub enum FeedResponse {
    /// No answer came, or it could not be read: the reason.
    Unreachable(String),
    /// An answer came, with this status, and this body: a release, or why
    /// the body is none.
    Answer { status: u16, body: Result<Release, String> },
}

/// Whether a status tells of success: 200 to 299.
pub open spec fn is_success(status: u16) -> bool {
    200 <= status < 300
}

/// Tells the installable assets from the others.
pub open spec fn is_installable() -> spec_fn(ReleaseAsset) -> bool {
    |a: ReleaseAsset| supported_name(a.name@)
}

/// The installable ones among `assets`, in the order in which they stand.
pub open spec fn installable(assets: Seq<ReleaseAsset>) -> Seq<ReleaseAsset> {
    assets.filter(is_installable())
}

/// The assets of the catalog that are checked: those whose place holds
/// `true` in `checked`, in the order of the catalog.
pub open spec fn chosen(catalog: Seq<ReleaseAsset>, checked: Seq<bool>) -> Seq<ReleaseAsset>
    decreases catalog.len(),
{
    if catalog.len() == 0 {
        Seq::empty()
    } else if catalog.len() <= checked.len() && checked[catalog.len() - 1] {
        chosen(catalog.drop_last(), checked).push(catalog.last())
    } else {
        chosen(catalog.drop_last(), checked)
    }
}

/// The key by which the catalog is ordered: the name in lowercase.
pub open spec fn sort_key(name: Seq<char>) -> Seq<char> {
    lowercase(name)
}

/// Whether `a` may stand before `b` in the catalog.
pub open spec fn name_le(a: ReleaseAsset, b: ReleaseAsset) -> bool {
    lex_le(sort_key(a.name@), sort_key(b.name@))
}

/// Whether every asset stands before all those that follow it.
pub open spec fn ordered_by_name(assets: Seq<ReleaseAsset>) -> bool {
    forall|i: int, j: int| 0 <= i < j < assets.len() ==> name_le(#[trigger] assets[i], #[trigger] assets[j])
}

/// Tells the assets with one sort key from the others.
pub open spec fn has_key(key: Seq<char>) -> spec_fn(ReleaseAsset) -> bool {
    |a: ReleaseAsset| sort_key(a.name@) == key
}

/// The assets with the sort key `key`, in the order in which they stand.
pub open spec fn with_key(assets: Seq<ReleaseAsset>, key: Seq<char>) -> Seq<ReleaseAsset> {
    assets.filter(has_key(key))
}

proof fn lemma_insert_ordered(out: Seq<ReleaseAsset>, p: int, a: ReleaseAsset)
    requires
        ordered_by_name(out),
        0 <= p <= out.len(),
        p > 0 ==> name_le(out[p - 1], a),
        forall|i: int| p <= i < out.len() ==> !name_le(#[trigger] out[i], a),
    ensures
        ordered_by_name(out.insert(p, a)),
{
    let new = out.insert(p, a);
    assert forall|i: int, j: int| 0 <= i < j < new.len() implies name_le(
        #[trigger] new[i],
        #[trigger] new[j],
    ) by {
        if j < p {
            assert(new[i] == out[i] && new[j] == out[j]);
        } else if j == p {
            assert(new[i] == out[i]);
            if i < p - 1 {
                assert(name_le(out[i], out[p - 1]));
                lemma_lex_le_transitive(
                    sort_key(out[i].name@),
                    sort_key(out[p - 1].name@),
                    sort_key(a.name@),
                );
            }
        } else if i == p {
            assert(new[j] == out[j - 1]);
            assert(!name_le(out[j - 1], a));
            lemma_lex_le_total(sort_key(out[j - 1].name@), sort_key(a.name@));
        } else if i < p {
            assert(new[i] == out[i] && new[j] == out[j - 1]);
        } else {
            assert(new[i] == out[i - 1] && new[j] == out[j - 1]);
        }
    }
}

proof fn lemma_insert_with_key(
    out: Seq<ReleaseAsset>,
    p: int,
    a: ReleaseAsset,
    key: Seq<char>,
)
    requires
        0 <= p <= out.len(),
        forall|i: int| p <= i < out.len() ==> !name_le(#[trigger] out[i], a),
    ensures
        with_key(out.insert(p, a), key) == with_key(out.push(a), key),
{
    let pred = has_key(key);
    let front = out.take(p);
    let back = out.skip(p);
    assert(out =~= front + back);
    assert(out.insert(p, a) =~= front.push(a) + back);
    Seq::filter_distributes_over_add(front, back, pred);
    Seq::filter_distributes_over_add(front.push(a), back, pred);
    front.lemma_filter_push(a, pred);
    out.lemma_filter_push(a, pred);
    if pred(a) {
        assert forall|i: int| 0 <= i < back.len() implies !pred(#[trigger] back[i]) by {
            assert(back[i] == out[p + i]);
            assert(!name_le(out[p + i], a));
            lemma_lex_le_reflexive(key);
        }
        back.lemma_all_neg_filter_empty(pred);
        assert(back.filter(pred) =~= Seq::empty());
        assert(front.filter(pred).push(a) + back.filter(pred) =~= (front.filter(pred)
            + back.filter(pred)).push(a));
    }
}

/// Makes the list of installable assets out of the answer of the feed. An
/// answer with a status from 200 to 299 and a release as its body gives the
/// assets of that release whose names end with the archive suffix, in the
/// order of the feed. Anything else gives the error that tells why.
pub fn available_fonts(response: FeedResponse) -> (fonts: Result<Vec<ReleaseAsset>, FetchError>)
    ensures
        match response {
            FeedResponse::Unreachable(reason) => fonts == Err::<Vec<ReleaseAsset>, FetchError>(
                FetchError::Transport(reason),
            ),
            FeedResponse::Answer { status, body } => if !is_success(status) {
                fonts == Err::<Vec<ReleaseAsset>, FetchError>(FetchError::Status(status))
            } else {
                match body {
                    Err(reason) => fonts == Err::<Vec<ReleaseAsset>, FetchError>(
                        FetchError::Parse(reason),
                    ),
                    Ok(release) => fonts is Ok && fonts.unwrap()@ == installable(release.assets@),
                }
            },
        },
{
    match response {
        FeedResponse::Unreachable(reason) => Err(FetchError::Transport(reason)),
        FeedResponse::Answer { status, body } => {
            if status < 200 || status >= 300 {
                return Err(FetchError::Status(status));
            }
            match body {
                Err(reason) => Err(FetchError::Parse(reason)),
                Ok(release) => {
                    let ghost feed = release.assets@;
                    let mut fonts: Vec<ReleaseAsset> = Vec::new();
                    assert(feed.take(0).filter(is_installable()) =~= fonts@) by {
                        reveal(Seq::filter);
                    }
                    for asset in it: release.assets
                        invariant
                            it.seq() == feed,
                            fonts@ == installable(feed.take(it.index() as int)),
                    {
                        proof {
                            let before = feed.take(it.index() as int);
                            assert(feed.take(it.index() + 1) =~= before.push(asset));
                            before.lemma_filter_push(asset, is_installable());
                        }
                        if asset.is_supported() {
                            fonts.push(asset);
                        }
                    }
                    assert(feed.take(feed.len() as int) =~= feed);
                    Ok(fonts)
                },
            }
        },
    }
}

/// Picks the batch to install: a copy of each asset of the catalog whose
/// place is checked, in the order of the catalog. A place that `checked`
/// does not reach counts as not checked.
pub fn select_batch(catalog: &Vec<ReleaseAsset>, checked: &Vec<bool>) -> (batch: Vec<ReleaseAsset>)
    ensures
        batch@ == chosen(catalog@, checked@),
{
    let mut batch: Vec<ReleaseAsset> = Vec::new();
    let mut i: usize = 0;
    while i < catalog.len()
        invariant
            i <= catalog.len(),
            batch@ == chosen(catalog@.take(i as int), checked@),
        decreases catalog.len() - i,
    {
        proof {
            assert(catalog@.take(i + 1).drop_last() =~= catalog@.take(i as int));
        }
        if i < checked.len() && checked[i] {
            batch.push(catalog[i].clone());
        }
        i += 1;
    }
    assert(catalog@.take(catalog.len() as int) =~= catalog@);
    batch
}

/// Puts the assets in the order in which the catalog shows them: by name,
/// ignoring case, and where two names differ in case only, in the order in
/// which they came.
pub fn sort_catalog(assets: Vec<ReleaseAsset>) -> (sorted: Vec<ReleaseAsset>)
    ensures
        ordered_by_name(sorted@),
        forall|key: Seq<char>| #[trigger] with_key(sorted@, key) == with_key(assets@, key),
        sorted@.to_multiset() == assets@.to_multiset(),
{
    let ghost input = assets@;
    let mut out: Vec<ReleaseAsset> = Vec::new();
    let mut keys: Vec<Vec<char>> = Vec::new();
    assert(input.take(0) =~= out@);
    for asset in it: assets
        invariant
            it.seq() == input,
            keys.len() == out.len(),
            forall|i: int| 0 <= i < out.len() ==> (#[trigger] keys[i])@ == sort_key(out[i].name@),
            ordered_by_name(out@),
            forall|key: Seq<char>| #[trigger]
                with_key(out@, key) == with_key(input.take(it.index() as int), key),
            out@.to_multiset() == input.take(it.index() as int).to_multiset(),
    {
        let lower = to_lowercase(asset.name.as_str());
        let key = chars_of(lower.as_str());
        let mut p: usize = out.len();
        while p > 0 && !chars_le(&keys[p - 1], &key)
            invariant
                p <= out.len(),
                keys.len() == out.len(),
                key@ == sort_key(asset.name@),
                forall|i: int| 0 <= i < out.len() ==> (#[trigger] keys[i])@ == sort_key(out[i].name@),
                forall|i: int| p <= i < out.len() ==> !name_le(#[trigger] out[i], asset),
            decreases p,
        {
            p -= 1;
        }
        proof {
            let ghost before = input.take(it.index() as int);
            assert(input.take(it.index() + 1) =~= before.push(asset));
            lemma_insert_ordered(out@, p as int, asset);
            assert forall|key: Seq<char>| #[trigger]
                with_key(out@.insert(p as int, asset), key) == with_key(
                    before.push(asset),
                    key,
                ) by {
                lemma_insert_with_key(out@, p as int, asset, key);
                out@.lemma_filter_push(asset, has_key(key));
                before.lemma_filter_push(asset, has_key(key));
                assert(with_key(out@, key) == with_key(before, key));
            }
            vstd::seq_lib::to_multiset_insert(out@, p as int, asset);
            vstd::seq_lib::to_multiset_build(before, asset);
        }
        out.insert(p, asset);
        keys.insert(p, key);
    }
    assert(input.take(input.len() as int) =~= input);
    out
}

/// In an ordered sequence the key of the last asset is the greatest.
proof fn lemma_last_key_greatest(assets: Seq<ReleaseAsset>, asset: ReleaseAsset)
    requires
        ordered_by_name(assets),
        assets.contains(asset),
    ensures
        name_le(asset, assets.last()),
{
    let i = choose|i: int| 0 <= i < assets.len() && assets[i] == asset;
    if i == assets.len() - 1 {
        lemma_lex_le_reflexive(sort_key(asset.name@));
    } else {
        assert(name_le(assets[i], assets[assets.len() - 1]));
    }
}

/// An asset that stands among those with some key stands in the sequence.
proof fn lemma_with_key_member(assets: Seq<ReleaseAsset>, at: int)
    requires
        0 <= at < assets.len(),
    ensures
        with_key(assets, sort_key(assets[at].name@)).contains(assets[at]),
{
    let key = sort_key(assets[at].name@);
    assert(has_key(key)(assets[at]));
    assets.lemma_filter_contains(has_key(key), at);
}

/// The order of the catalog is the only one: two sequences that both stand
/// in order by name and hold, for every key, the same assets in the same
/// order are one and the same.
pub proof fn lemma_catalog_order_unique(first: Seq<ReleaseAsset>, second: Seq<ReleaseAsset>)
    requires
        ordered_by_name(first),
        ordered_by_name(second),
        forall|key: Seq<char>| #[trigger] with_key(first, key) == with_key(second, key),
    ensures
        first == second,
    decreases first.len(),
{
    if first.len() == 0 {
        if second.len() > 0 {
            lemma_with_key_member(second, 0);
            let key = sort_key(second[0].name@);
            assert(with_key(first, key) == with_key(second, key));
            first.lemma_filter_contains_rev(has_key(key), second[0]);
        }
        assert(first =~= second);
    } else {
        let a = first.last();
        let ka = sort_key(a.name@);
        lemma_with_key_member(first, first.len() - 1);
        assert(with_key(first, ka) == with_key(second, ka));
        second.lemma_filter_contains_rev(has_key(ka), a);
        let b = second.last();
        let kb = sort_key(b.name@);
        lemma_with_key_member(second, second.len() - 1);
        assert(with_key(first, kb) == with_key(second, kb));
        first.lemma_filter_contains_rev(has_key(kb), b);
        lemma_last_key_greatest(second, a);
        lemma_last_key_greatest(first, b);
        lemma_lex_le_antisymmetric(ka, kb);
        let first_head = first.drop_last();
        let second_head = second.drop_last();
        assert(first =~= first_head.push(a));
        assert(second =~= second_head.push(b));
        assert(a == b) by {
            first_head.lemma_filter_push(a, has_key(ka));
            second_head.lemma_filter_push(b, has_key(ka));
            assert(has_key(ka)(a) && has_key(ka)(b));
            let x = with_key(first_head, ka).push(a);
            let y = with_key(second_head, ka).push(b);
            assert(with_key(first, ka) == x);
            assert(with_key(second, ka) == y);
            assert(x.last() == y.last());
        }
        assert forall|key: Seq<char>| #[trigger]
            with_key(first_head, key) == with_key(second_head, key) by {
            first_head.lemma_filter_push(a, has_key(key));
            second_head.lemma_filter_push(b, has_key(key));
            assert(with_key(first, key) == with_key(second, key));
            if has_key(key)(a) {
                let x = with_key(first_head, key).push(a);
                let y = with_key(second_head, key).push(b);
                assert(x == y);
                assert(x.drop_last() =~= with_key(first_head, key));
                assert(y.drop_last() =~= with_key(second_head, key));
            }
        }
        assert(ordered_by_name(first_head)) by {
            assert forall|i: int, j: int| 0 <= i < j < first_head.len() implies name_le(
                #[trigger] first_head[i],
                #[trigger] first_head[j],
            ) by {
                assert(name_le(first[i], first[j]));
            }
        }
        assert(ordered_by_name(second_head)) by {
            assert forall|i: int, j: int| 0 <= i < j < second_head.len() implies name_le(
                #[trigger] second_head[i],
                #[trigger] second_head[j],
            ) by {
                assert(name_le(second[i], second[j]));
            }
        }
        lemma_catalog_order_unique(first_head, second_head);
    }
}

/// A catalog made by ordering the installable assets of a feed stands in
/// order by name, ignoring case, and holds no asset whose name lacks the
/// archive suffix.
pub proof fn lemma_catalog_ordered_and_installable(
    feed: Seq<ReleaseAsset>,
    catalog: Seq<ReleaseAsset>,
)
    requires
        ordered_by_name(catalog),
        forall|key: Seq<char>| #[trigger] with_key(catalog, key) == with_key(installable(feed), key),
    ensures
        forall|i: int, j: int|
            0 <= i < j < catalog.len() ==> lex_le(
                lowercase(#[trigger] catalog[i].name@),
                lowercase(#[trigger] catalog[j].name@),
            ),
        forall|i: int| 0 <= i < catalog.len() ==> supported_name(#[trigger] catalog[i].name@),
{
    assert forall|i: int, j: int| 0 <= i < j < catalog.len() implies lex_le(
        lowercase(#[trigger] catalog[i].name@),
        lowercase(#[trigger] catalog[j].name@),
    ) by {
        assert(name_le(catalog[i], catalog[j]));
    }
    assert forall|i: int| 0 <= i < catalog.len() implies supported_name(
        #[trigger] catalog[i].name@,
    ) by {
        let asset = catalog[i];
        let key = sort_key(asset.name@);
        assert(has_key(key)(catalog[i]));
        catalog.lemma_filter_contains(has_key(key), i);
        assert(with_key(catalog, key).contains(asset));
        assert(with_key(catalog, key) == with_key(installable(feed), key));
        installable(feed).lemma_filter_contains_rev(has_key(key), asset);
        let k = choose|k: int| 0 <= k < installable(feed).len() && installable(feed)[k] == asset;
        feed.lemma_filter_pred(is_installable(), k);
    }
}

} // verus!
