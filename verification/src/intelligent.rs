//! From files to named groups: the features of each file, and the groups that
//! the clusters become.

use crate::chars::{rows, views};
use crate::features::{extract_filename_features, filename_vector, Fraction};
use crate::kmeans::{
    clusters_of, initial_state, lemma_kept_clusters, lemma_reached_states_are_valid,
    perform_clustering, state_after, valid_state, EngineState, EventModel, KMeans,
};
use crate::naming::{generate_name_from_files, group_name};
use crate::ranking::{rank_descending, ranking};
use crate::tfidf::{
    build_tfidf_model, compute_tfidf_vector, content_vector, model_of, tokenized, tokens,
    vocabulary, TermWeight,
};
use vstd::prelude::*;

verus! {

/// A file as it comes from the directory: its name, and what was read of it
/// where it is a text file that could be read.
#[derive(Debug, Clone)]
pub struct FileInput {
    pub name: String,
    pub content: Option<String>,
}

/// A file with its features for clustering.
#[derive(Debug, Clone)]
pub struct FileFeatures {
    pub name: String,
    /// The shape of the file name: 29 entries.
    pub filename_vector: Vec<Fraction>,
    /// One entry per token of the vocabulary, where the file has content.
    pub content_vector: Option<Vec<TermWeight>>,
    pub is_text: bool,
}

/// A group of similar files.
#[derive(Debug, Clone)]
pub struct FileGroup {
    /// The names of the files.
    pub files: Vec<String>,
    pub suggested_name: String,
}

/// The result of clustering.
#[derive(Debug, Clone)]
pub struct ClusterResult {
    pub groups: Vec<FileGroup>,
}

/// The contents of the files that have one, in the order of the files.
pub open spec fn corpus(files: Seq<FileInput>) -> Seq<Seq<char>>
    decreases files.len(),
{
    if files.len() == 0 {
        Seq::empty()
    } else {
        match files.last().content {
            Some(text) => corpus(files.drop_last()).push(text@),
            None => corpus(files.drop_last()),
        }
    }
}

/// Whether `features` are those of `file` in a run over `files`: the vector of
/// its name, and, where it has content, its content vector under the model of
/// all contents.
pub open spec fn features_match(features: FileFeatures, file: FileInput, files: Seq<FileInput>) -> bool {
    &&& features.name@ == file.name@
    &&& features.filename_vector@ == filename_vector(file.name@)
    &&& features.is_text == (file.content is Some)
    &&& match file.content {
        Some(text) => features.content_vector is Some && features.content_vector->0@
            == content_vector(tokens(text@), model_of(tokenized(corpus(files)))),
        None => features.content_vector is None,
    }
}

fn collect_corpus(files: &Vec<FileInput>) -> (documents: Vec<String>)
    ensures
        views(documents@) == corpus(files@),
{
    let mut documents: Vec<String> = Vec::new();
    let mut i: usize = 0;
    proof {
        assert(files@.take(0) =~= Seq::<FileInput>::empty());
        assert(views(documents@) =~= Seq::<Seq<char>>::empty());
    }
    while i < files.len()
        invariant
            i <= files.len(),
            views(documents@) == corpus(files@.take(i as int)),
        decreases files.len() - i,
    {
        proof {
            assert(files@.take(i + 1).drop_last() =~= files@.take(i as int));
            assert(files@.take(i + 1).last() == files@[i as int]);
        }
        match &files[i].content {
            Some(text) => {
                let ghost before = views(documents@);
                documents.push(text.clone());
                assert(views(documents@) =~= before.push(text@));
            },
            None => {},
        }
        i += 1;
    }
    assert(files@.take(files@.len() as int) == files@);
    documents
}

/// The features of every file, in the order of the files. The text model is
/// built from the contents of all files that have one.
pub fn extract_features(files: &Vec<FileInput>) -> (features: Vec<FileFeatures>)
    ensures
        features@.len() == files@.len(),
        forall|i: int|
            0 <= i < files@.len() ==> features_match(#[trigger] features@[i], files@[i], files@),
{
    let documents = collect_corpus(files);
    let model = build_tfidf_model(&documents);
    let mut features: Vec<FileFeatures> = Vec::new();
    let mut i: usize = 0;
    while i < files.len()
        invariant
            i <= files.len(),
            features@.len() == i,
            model@ == model_of(tokenized(corpus(files@))),
            forall|j: int| 0 <= j < i ==> features_match(#[trigger] features@[j], files@[j], files@),
        decreases files.len() - i,
    {
        let file = &files[i];
        let filename_vector = extract_filename_features(file.name.as_str());
        let content_vector = match &file.content {
            Some(text) => Some(compute_tfidf_vector(text.as_str(), &model)),
            None => None,
        };
        features.push(
            FileFeatures {
                name: file.name.clone(),
                filename_vector,
                content_vector,
                is_text: file.content.is_some(),
            },
        );
        i += 1;
    }
    features
}

/// The names of the files of a cluster.
pub open spec fn cluster_names(cluster: Seq<usize>, features: Seq<FileFeatures>) -> Seq<Seq<char>> {
    Seq::new(cluster.len(), |j: int| features[cluster[j] as int].name@)
}

/// Whether every member of every cluster is the number of a file.
pub open spec fn clusters_in_range(clusters: Seq<Vec<usize>>, files: nat) -> bool {
    forall|g: int, j: int|
        0 <= g < clusters.len() && 0 <= j < clusters[g]@.len() ==> (#[trigger] clusters[g]@[j])
            < files
}

fn names_of(cluster: &Vec<usize>, features: &Vec<FileFeatures>) -> (names: Vec<String>)
    requires
        forall|j: int| 0 <= j < cluster@.len() ==> (#[trigger] cluster@[j]) < features@.len(),
    ensures
        views(names@) == cluster_names(cluster@, features@),
{
    let mut names: Vec<String> = Vec::new();
    let mut j: usize = 0;
    while j < cluster.len()
        invariant
            j <= cluster.len(),
            forall|t: int| 0 <= t < cluster@.len() ==> (#[trigger] cluster@[t]) < features@.len(),
            names@.len() == j,
            forall|t: int| 0 <= t < j ==> (#[trigger] names@[t])@ == features@[cluster@[t] as int].name@,
        decreases cluster.len() - j,
    {
        names.push(features[cluster[j]].name.clone());
        j += 1;
    }
    assert(views(names@) =~= cluster_names(cluster@, features@));
    names
}

/// One group per cluster, in the order of the clusters: the names of its files,
/// in the order of the cluster, and the name that they suggest.
pub fn generate_group_names(clusters: Vec<Vec<usize>>, features: &Vec<FileFeatures>) -> (groups: Vec<
    FileGroup,
>)
    requires
        clusters_in_range(clusters@, features@.len()),
    ensures
        groups@.len() == clusters@.len(),
        forall|g: int|
            0 <= g < clusters@.len() ==> views((#[trigger] groups@[g]).files@) == cluster_names(
                clusters@[g]@,
                features@,
            ),
        forall|g: int|
            0 <= g < clusters@.len() ==> (#[trigger] groups@[g]).suggested_name@ == group_name(
                cluster_names(clusters@[g]@, features@),
            ),
{
    let mut groups: Vec<FileGroup> = Vec::new();
    let mut g: usize = 0;
    while g < clusters.len()
        invariant
            g <= clusters.len(),
            clusters_in_range(clusters@, features@.len()),
            groups@.len() == g,
            forall|t: int|
                0 <= t < g ==> views((#[trigger] groups@[t]).files@) == cluster_names(
                    clusters@[t]@,
                    features@,
                ),
            forall|t: int|
                0 <= t < g ==> (#[trigger] groups@[t]).suggested_name@ == group_name(
                    cluster_names(clusters@[t]@, features@),
                ),
        decreases clusters.len() - g,
    {
        let files = names_of(&clusters[g], features);
        let suggested_name = generate_name_from_files(&files);
        groups.push(FileGroup { files, suggested_name });
        g += 1;
    }
    groups
}

/// An entry that weighs nothing.
pub open spec fn zero_weight() -> TermWeight {
    TermWeight { frequency: Fraction { num: 0, den: 1 }, rarity: Fraction { num: 1, den: 1 } }
}

/// The content part of a file's combined vector: its content vector, or
/// `dimensions` entries that weigh nothing where it has none.
pub open spec fn padded_content(features: FileFeatures, dimensions: nat) -> Seq<TermWeight> {
    match features.content_vector {
        Some(v) => v@,
        None => Seq::new(dimensions, |i: int| zero_weight()),
    }
}

/// The length of the content vectors of a run: that of the first file that has
/// one, and 0 where no file has one.
pub open spec fn content_length(features: Seq<FileFeatures>) -> nat
    decreases features.len(),
{
    if features.len() == 0 {
        0
    } else {
        match features[0].content_vector {
            Some(v) => v@.len(),
            None => content_length(features.drop_first()),
        }
    }
}

/// The length of the content vectors of a run, to which the vectors of files
/// without content are padded.
pub fn content_dimensions(features: &Vec<FileFeatures>) -> (dimensions: usize)
    ensures
        dimensions == content_length(features@),
{
    let mut i: usize = 0;
    assert(features@.skip(0) == features@);
    while i < features.len()
        invariant
            i <= features.len(),
            content_length(features@) == content_length(features@.skip(i as int)),
        decreases features.len() - i,
    {
        proof {
            assert(features@.skip(i as int)[0] == features@[i as int]);
            assert(features@.skip(i as int).drop_first() == features@.skip(i + 1));
        }
        match &features[i].content_vector {
            Some(v) => {
                return v.len();
            },
            None => {},
        }
        i += 1;
    }
    0
}

/// The content part of a file's combined vector, which follows the entries of
/// its file name: its content vector, or `dimensions` entries that weigh
/// nothing. The caller scales both parts by their weights.
pub fn combine_feature_vectors(features: &FileFeatures, dimensions: usize) -> (content: Vec<TermWeight>)
    ensures
        content@ == padded_content(*features, dimensions as nat),
{
    let mut content: Vec<TermWeight> = Vec::new();
    match &features.content_vector {
        Some(v) => {
            let mut i: usize = 0;
            while i < v.len()
                invariant
                    i <= v.len(),
                    content@ == v@.take(i as int),
                decreases v.len() - i,
            {
                content.push(v[i]);
                assert(v@.take(i + 1) =~= v@.take(i as int).push(v@[i as int]));
                i += 1;
            }
            assert(v@.take(v@.len() as int) == v@);
        },
        None => {
            let mut i: usize = 0;
            while i < dimensions
                invariant
                    i <= dimensions,
                    content@.len() == i,
                    forall|j: int| 0 <= j < i ==> content@[j] == zero_weight(),
                decreases dimensions - i,
            {
                content.push(
                    TermWeight {
                        frequency: Fraction { num: 0, den: 1 },
                        rarity: Fraction { num: 1, den: 1 },
                    },
                );
                i += 1;
            }
            assert(content@ =~= Seq::new(dimensions as nat, |i: int| zero_weight()));
        },
    }
    content
}

/// All content vectors of a run are as long as its vocabulary, so that every
/// combined vector of the run has the same length.
pub proof fn lemma_content_vectors_share_a_length(features: Seq<FileFeatures>, files: Seq<FileInput>)
    requires
        features.len() == files.len(),
        forall|i: int| 0 <= i < files.len() ==> features_match(#[trigger] features[i], files[i], files),
    ensures
        forall|i: int|
            0 <= i < features.len() ==> (#[trigger] padded_content(
                features[i],
                content_length(features),
            )).len() == content_length(features),
        (exists|i: int| 0 <= i < files.len() && (#[trigger] files[i]).content is Some)
            ==> content_length(features) == vocabulary(tokenized(corpus(files))).len(),
{
    let size = vocabulary(tokenized(corpus(files))).len();
    assert forall|i: int| 0 <= i < features.len() && (#[trigger] features[i]).content_vector is Some implies features[i].content_vector->0@.len()
        == size by {
        assert(features_match(features[i], files[i], files));
    }
    lemma_content_length(features, size);
    if exists|i: int| 0 <= i < files.len() && (#[trigger] files[i]).content is Some {
        let i = choose|i: int| 0 <= i < files.len() && (#[trigger] files[i]).content is Some;
        assert(features_match(features[i], files[i], files));
        assert(features[i].content_vector is Some);
    }
}

proof fn lemma_content_length(features: Seq<FileFeatures>, size: nat)
    requires
        forall|i: int|
            0 <= i < features.len() && (#[trigger] features[i]).content_vector is Some
                ==> features[i].content_vector->0@.len() == size,
    ensures
        (exists|i: int| 0 <= i < features.len() && (#[trigger] features[i]).content_vector is Some)
            ==> content_length(features) == size,
        (forall|i: int| 0 <= i < features.len() ==> (#[trigger] features[i]).content_vector is None)
            ==> content_length(features) == 0,
    decreases features.len(),
{
    if features.len() > 0 {
        let rest = features.drop_first();
        assert forall|i: int|
            0 <= i < rest.len() && (#[trigger] rest[i]).content_vector is Some implies rest[i].content_vector->0@.len()
            == size by {
            assert(rest[i] == features[i + 1]);
        }
        lemma_content_length(rest, size);
        if features[0].content_vector is None {
            if exists|i: int| 0 <= i < features.len() && (#[trigger] features[i]).content_vector is Some {
                let i = choose|i: int|
                    0 <= i < features.len() && (#[trigger] features[i]).content_vector is Some;
                assert(rest[i - 1] == features[i]);
            }
            if forall|i: int| 0 <= i < features.len() ==> (#[trigger] features[i]).content_vector is None {
                assert forall|i: int| 0 <= i < rest.len() implies (#[trigger] rest[i]).content_vector is None by {
                    assert(rest[i] == features[i + 1]);
                }
            }
        }
    }
}

/// Whether `groups` are the groups of `clusters`, one for one: each holds the
/// names of the files of its cluster and the name that these suggest.
pub open spec fn groups_match(
    groups: Seq<FileGroup>,
    clusters: Seq<Seq<usize>>,
    features: Seq<FileFeatures>,
) -> bool {
    &&& groups.len() == clusters.len()
    &&& forall|g: int|
        0 <= g < clusters.len() ==> views((#[trigger] groups[g]).files@) == cluster_names(
            clusters[g],
            features,
        ) && groups[g].suggested_name@ == group_name(cluster_names(clusters[g], features))
}

/// Whether every group has at least `min` files.
pub open spec fn groups_are_large(groups: Seq<FileGroup>, min: nat) -> bool {
    forall|g: int| 0 <= g < groups.len() ==> (#[trigger] groups[g]).files@.len() >= min
}

/// The result of a run whose engine has stopped: the clusters that are kept,
/// each as a named group. No group is smaller than `min_cluster_size`, unless
/// no cluster may be formed at all. There is no result where `features` are not
/// those of the files that the engine was made for.
pub fn collect_groups(engine: &KMeans, features: &Vec<FileFeatures>, min_cluster_size: usize) -> (result:
    Option<ClusterResult>)
    ensures
        result is Some <==> features@.len() == engine@.points,
        match result {
            Some(r) => groups_match(
                r.groups@,
                clusters_of(engine@, min_cluster_size as nat),
                features@,
            ) && (engine@.clusters > 0 ==> groups_are_large(r.groups@, min_cluster_size as nat)),
            None => true,
        },
{
    if features.len() != engine.points() {
        return None;
    }
    let clusters = perform_clustering(engine, min_cluster_size);
    proof {
        let kept = clusters_of(engine@, min_cluster_size as nat);
        lemma_kept_clusters(engine@, min_cluster_size as nat);
        assert forall|g: int, j: int|
            0 <= g < clusters@.len() && 0 <= j < clusters@[g]@.len() implies (
        #[trigger] clusters@[g]@[j]) < features@.len() by {
            assert(rows(clusters@)[g] == clusters@[g]@);
            assert(kept[g][j] < engine@.points);
        }
    }
    let ghost kept = rows(clusters@);
    let groups = generate_group_names(clusters, features);
    proof {
        assert forall|g: int| 0 <= g < kept.len() implies views((#[trigger] groups@[g]).files@)
            == cluster_names(kept[g], features@) && groups@[g].suggested_name@ == group_name(
            cluster_names(kept[g], features@),
        ) by {}
        lemma_groups_are_large_and_from_the_input(
            groups@,
            engine@,
            min_cluster_size as nat,
            features@,
        );
    }
    Some(ClusterResult { groups })
}

/// No group is smaller than asked, and every file of a group is a file of the
/// input: where at least one cluster may be formed, each group of the result
/// has at least `min` files; in every case each file of a group is one of the
/// files that were given, and no file is taken for two places of the result.
pub proof fn lemma_groups_are_large_and_from_the_input(
    groups: Seq<FileGroup>,
    s: EngineState,
    min: nat,
    features: Seq<FileFeatures>,
)
    requires
        valid_state(s),
        features.len() == s.points,
        groups_match(groups, clusters_of(s, min), features),
    ensures
        s.clusters > 0 ==> forall|g: int|
            0 <= g < groups.len() ==> (#[trigger] groups[g]).files@.len() >= min,
        forall|g: int, j: int|
            0 <= g < groups.len() && 0 <= j < groups[g].files@.len() ==> {
                let file = clusters_of(s, min)[g][j];
                &&& file < features.len()
                &&& (#[trigger] groups[g].files@[j])@ == features[file as int].name@
            },
        forall|g: int, j: int, h: int, k: int|
            0 <= g < groups.len() && 0 <= j < groups[g].files@.len() && 0 <= h < groups.len() && 0
                <= k < groups[h].files@.len() && (g != h || j != k) ==> (#[trigger] clusters_of(
                s,
                min,
            )[g][j]) != (#[trigger] clusters_of(s, min)[h][k]),
{
    let kept = clusters_of(s, min);
    lemma_kept_clusters(s, min);
    assert forall|g: int| 0 <= g < groups.len() implies (#[trigger] groups[g]).files@.len()
        == kept[g].len() by {
        assert(views(groups[g].files@).len() == cluster_names(kept[g], features).len());
    }
    assert forall|g: int, j: int|
        0 <= g < groups.len() && 0 <= j < groups[g].files@.len() implies {
        let file = clusters_of(s, min)[g][j];
        &&& file < features.len()
        &&& (#[trigger] groups[g].files@[j])@ == features[file as int].name@
    } by {
        assert(views(groups[g].files@)[j] == cluster_names(kept[g], features)[j]);
        assert(kept[g][j] < s.points);
    }
}

/// Two runs over the same files with the same settings give the same result:
/// where both runs report the same distances to their engines, they end with
/// the same groups of the same files under the same names, and on the way
/// every file has the same features in both.
pub proof fn lemma_runs_agree(
    files: Seq<FileInput>,
    clusters: nat,
    max_iterations: nat,
    min: nat,
    events: Seq<EventModel>,
    first: Seq<FileFeatures>,
    second: Seq<FileFeatures>,
    first_groups: Seq<FileGroup>,
    second_groups: Seq<FileGroup>,
)
    requires
        files.len() <= usize::MAX,
        first.len() == files.len(),
        second.len() == files.len(),
        forall|i: int| 0 <= i < files.len() ==> features_match(#[trigger] first[i], files[i], files),
        forall|i: int| 0 <= i < files.len() ==> features_match(#[trigger] second[i], files[i], files),
        ({
            let end = state_after(initial_state(files.len(), clusters, max_iterations), events);
            &&& groups_match(first_groups, clusters_of(end, min), first)
            &&& groups_match(second_groups, clusters_of(end, min), second)
        }),
    ensures
        forall|i: int|
            0 <= i < files.len() ==> {
                &&& (#[trigger] first[i]).name@ == second[i].name@
                &&& first[i].filename_vector@ == second[i].filename_vector@
                &&& first[i].is_text == second[i].is_text
                &&& first[i].content_vector is Some == second[i].content_vector is Some
                &&& first[i].content_vector is Some ==> first[i].content_vector->0@
                    == second[i].content_vector->0@
            },
        first_groups.len() == second_groups.len(),
        forall|g: int|
            0 <= g < first_groups.len() ==> views((#[trigger] first_groups[g]).files@) == views(
                second_groups[g].files@,
            ) && first_groups[g].suggested_name@ == second_groups[g].suggested_name@,
{
    let end = state_after(initial_state(files.len(), clusters, max_iterations), events);
    let kept = clusters_of(end, min);
    lemma_reached_states_are_valid(files.len(), clusters, max_iterations, events);
    lemma_kept_clusters(end, min);
    assert forall|i: int| 0 <= i < files.len() implies {
        &&& (#[trigger] first[i]).name@ == second[i].name@
        &&& first[i].filename_vector@ == second[i].filename_vector@
        &&& first[i].is_text == second[i].is_text
        &&& first[i].content_vector is Some == second[i].content_vector is Some
        &&& first[i].content_vector is Some ==> first[i].content_vector->0@
            == second[i].content_vector->0@
    } by {
        assert(features_match(first[i], files[i], files));
        assert(features_match(second[i], files[i], files));
    }
    assert forall|g: int| 0 <= g < first_groups.len() implies views(
        (#[trigger] first_groups[g]).files@,
    ) == views(second_groups[g].files@) && first_groups[g].suggested_name@
        == second_groups[g].suggested_name@ by {
        assert forall|j: int| 0 <= j < kept[g].len() implies cluster_names(kept[g], first)[j]
            == cluster_names(kept[g], second)[j] by {
            let file = kept[g][j] as int;
            assert(file < files.len());
            assert(features_match(first[file], files[file], files));
            assert(features_match(second[file], files[file], files));
        }
        assert(cluster_names(kept[g], first) =~= cluster_names(kept[g], second));
    }
}

/// The sum of the sizes.
pub open spec fn total_size(sizes: Seq<usize>) -> nat
    decreases sizes.len(),
{
    if sizes.len() == 0 {
        0
    } else {
        total_size(sizes.drop_last()) + sizes.last() as nat
    }
}

/// The number of files of each group, by position.
pub open spec fn group_sizes(groups: Seq<FileGroup>) -> Seq<usize> {
    Seq::new(groups.len(), |g: int| groups[g].files@.len() as usize)
}

/// The figures of a result, as they are reported.
#[derive(Debug, Clone, PartialEq, Eq)]
pub struct GroupStatistics {
    /// The number of files in all groups, or `usize::MAX` where it is larger.
    pub total_files: usize,
    /// The number of groups.
    pub groups: usize,
    /// The files per group, rounded down; 0 without groups.
    pub average_size: usize,
    /// The groups by size, the largest first; equally large ones in their order.
    pub by_size: Vec<usize>,
}

/// Whether `stats` are the figures of `groups`.
pub open spec fn is_statistics(stats: GroupStatistics, groups: Seq<FileGroup>) -> bool {
    let total = total_size(group_sizes(groups));
    &&& stats.total_files == (if total > usize::MAX {
        usize::MAX as nat
    } else {
        total
    })
    &&& stats.groups == groups.len()
    &&& stats.average_size == (if groups.len() == 0 {
        0
    } else {
        stats.total_files as nat / groups.len()
    })
    &&& stats.by_size@ == ranking(group_sizes(groups))
}

/// The figures of a result: how many files and groups, the average size of a
/// group, and the groups ranked by size.
pub fn group_statistics(result: &ClusterResult) -> (stats: GroupStatistics)
    ensures
        is_statistics(stats, result.groups@),
{
    let ghost all = group_sizes(result.groups@);
    let mut sizes: Vec<usize> = Vec::new();
    let mut total: usize = 0;
    let mut g: usize = 0;
    assert(all.take(0) =~= Seq::<usize>::empty());
    while g < result.groups.len()
        invariant
            g <= result.groups.len(),
            all == group_sizes(result.groups@),
            sizes@ == all.take(g as int),
            total == (if total_size(all.take(g as int)) > usize::MAX {
                usize::MAX as nat
            } else {
                total_size(all.take(g as int))
            }),
        decreases result.groups.len() - g,
    {
        let size = result.groups[g].files.len();
        proof {
            assert(all.take(g + 1).drop_last() =~= all.take(g as int));
            assert(all.take(g + 1).last() == size);
            assert(all.take(g + 1) =~= all.take(g as int).push(size));
        }
        sizes.push(size);
        total = if total > usize::MAX - size {
            usize::MAX
        } else {
            total + size
        };
        g += 1;
    }
    assert(all.take(result.groups@.len() as int) == all);
    let by_size = rank_descending(&sizes);
    let average_size: usize = if result.groups.len() == 0 {
        0
    } else {
        total / result.groups.len()
    };
    GroupStatistics { total_files: total, groups: result.groups.len(), average_size, by_size }
}

} // verus!
