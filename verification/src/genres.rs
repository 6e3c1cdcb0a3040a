//! Genre statistics: how many times each genre occurs over the playlist,
//! sorted by genre.
use vstd::prelude::*;
use vstd::multiset::Multiset;
use crate::playlist::Playlist;
use crate::text::{chars_of, compare_chars, text_before, TextOrder};
use crate::text::{lemma_before_irreflexive, lemma_before_transitive};
use crate::track::{texts, Track};

verus! {

broadcast use vstd::seq_lib::group_to_multiset_ensures;

/// The distinct texts of `s`, in order of first occurrence.
pub open spec fn first_occurrences(s: Seq<Seq<char>>) -> Seq<Seq<char>>
    decreases s.len(),
{
    if s.len() == 0 {
        s
    } else if s.drop_last().contains(s.last()) {
        first_occurrences(s.drop_last())
    } else {
        first_occurrences(s.drop_last()).push(s.last())
    }
}

/// The genres of all tracks, track after track, each track contributing each
/// of its genres once.
pub open spec fn all_genres(tracks: Seq<Track>) -> Seq<Seq<char>>
    decreases tracks.len(),
{
    if tracks.len() == 0 {
        Seq::<Seq<char>>::empty()
    } else {
        all_genres(tracks.drop_last()) + first_occurrences(texts(tracks.last().genres@))
    }
}

/// How many tracks have the genre `g`.
pub open spec fn tracks_with(tracks: Seq<Track>, g: Seq<char>) -> nat
    decreases tracks.len(),
{
    if tracks.len() == 0 {
        0
    } else {
        tracks_with(tracks.drop_last(), g) + if texts(tracks.last().genres@).contains(g) {
            1nat
        } else {
            0nat
        }
    }
}

proof fn lemma_first_occurrences_count(s: Seq<Seq<char>>, g: Seq<char>)
    ensures
        first_occurrences(s).to_multiset().count(g) == (if s.contains(g) {
            1nat
        } else {
            0nat
        }),
    decreases s.len(),
{
    if s.len() == 0 {
        assert(first_occurrences(s).to_multiset().len() == 0);
    } else {
        let d = s.drop_last();
        lemma_first_occurrences_count(d, g);
        assert(s =~= d.push(s.last()));
        assert(s.contains(g) <==> (d.contains(g) || s.last() == g)) by {
            if s.contains(g) {
                let k = choose|k: int| 0 <= k < s.len() && s[k] == g;
                if k < d.len() {
                    assert(d[k] == g);
                }
            }
            if d.contains(g) {
                let k = choose|k: int| 0 <= k < d.len() && d[k] == g;
                assert(s[k] == g);
            }
        }
    }
}

/// Each track contributes each of its genres once: the multiplicity of a
/// genre in `all_genres` is the number of tracks that have it.
pub proof fn lemma_all_genres_count(tracks: Seq<Track>, g: Seq<char>)
    ensures
        all_genres(tracks).to_multiset().count(g) == tracks_with(tracks, g),
        tracks_with(tracks, g) <= tracks.len(),
    decreases tracks.len(),
{
    if tracks.len() == 0 {
        assert(all_genres(tracks).to_multiset().len() == 0);
    } else {
        let d = tracks.drop_last();
        lemma_all_genres_count(d, g);
        lemma_first_occurrences_count(texts(tracks.last().genres@), g);
        vstd::seq_lib::lemma_multiset_commutative(
            all_genres(d),
            first_occurrences(texts(tracks.last().genres@)),
        );
    }
}

/// `c` tallies the multiset `m`: its keys are strictly ascending (so
/// distinct), it has a key for exactly the elements of `m`, and each key's
/// count is its multiplicity in `m`.
pub open spec fn is_tally(c: Seq<(String, usize)>, m: Multiset<Seq<char>>) -> bool {
    &&& forall|i: int, j: int|
        #![trigger c[i], c[j]]
        0 <= i < j < c.len() ==> text_before(c[i].0@, c[j].0@)
    &&& forall|i: int|
        #![trigger c[i]]
        0 <= i < c.len() ==> c[i].1 == m.count(c[i].0@) && m.count(c[i].0@) > 0
    &&& forall|g: Seq<char>|
        #![trigger m.count(g)]
        m.count(g) > 0 ==> exists|i: int| 0 <= i < c.len() && #[trigger] c[i].0@ == g
}

proof fn lemma_all_genres_step(tracks: Seq<Track>, i: int)
    requires
        0 <= i < tracks.len(),
    ensures
        all_genres(tracks.take(i + 1)) == all_genres(tracks.take(i)) + first_occurrences(
            texts(tracks[i].genres@),
        ),
{
    assert(tracks.take(i + 1).drop_last() =~= tracks.take(i));
}

/// Counts one more occurrence of `g` in the tally `c` of `m`.
fn tally_add(c: &mut Vec<(String, usize)>, g: &String, Ghost(m): Ghost<Multiset<Seq<char>>>)
    requires
        is_tally(old(c)@, m),
        m.count(g@) < usize::MAX,
    ensures
        is_tally(final(c)@, m.insert(g@)),
{
    let gc = chars_of(g.as_str());
    let mut p: usize = 0;
    while p < c.len()
        invariant
            c@ == old(c)@,
            is_tally(c@, m),
            m.count(g@) < usize::MAX,
            gc@ == g@,
            p <= c.len(),
            forall|k: int| 0 <= k < p ==> text_before(#[trigger] c@[k].0@, g@),
        decreases c.len() - p,
    {
        let kc = chars_of(c[p].0.as_str());
        match compare_chars(&kc, &gc) {
            TextOrder::Before => {
                p += 1;
            },
            TextOrder::Same => {
                let n = c[p].1;
                let key = c[p].0.clone();
                let ghost prev = c@;
                c.set(p, (key, n + 1));
                proof {
                    assert forall|i: int| 0 <= i < prev.len() && i != p implies prev[i].0@
                        != g@ by {
                        if i < p {
                            assert(text_before(prev[i].0@, prev[p as int].0@));
                        } else {
                            assert(text_before(prev[p as int].0@, prev[i].0@));
                        }
                        lemma_before_irreflexive(g@);
                    }
                    assert forall|x: Seq<char>| #[trigger]
                        m.insert(g@).count(x) > 0 implies exists|i: int|
                        0 <= i < c@.len() && #[trigger] c@[i].0@ == x by {
                        if x == g@ {
                            assert(c@[p as int].0@ == x);
                        } else {
                            let i = choose|i: int| 0 <= i < prev.len() && #[trigger] prev[i].0@ == x;
                            assert(c@[i].0@ == x);
                        }
                    }
                }
                return;
            },
            TextOrder::After => {
                let ghost prev = c@;
                proof {
                    assert forall|i: int| 0 <= i < prev.len() implies prev[i].0@ != g@ by {
                        lemma_before_irreflexive(g@);
                        if i < p {
                        } else if i == p {
                        } else {
                            assert(text_before(prev[p as int].0@, prev[i].0@));
                            lemma_before_transitive(g@, prev[p as int].0@, prev[i].0@);
                        }
                    }
                    assert(m.count(g@) == 0);
                }
                c.insert(p, (g.clone(), 1));
                proof {
                    assert forall|i: int, j: int|
                        #![trigger c@[i], c@[j]]
                        0 <= i < j < c@.len() implies text_before(c@[i].0@, c@[j].0@) by {
                        if j < p {
                            assert(c@[i] == prev[i] && c@[j] == prev[j]);
                        } else if j == p {
                            assert(c@[i] == prev[i]);
                        } else if i < p {
                            assert(c@[i] == prev[i] && c@[j] == prev[j - 1]);
                            assert(text_before(prev[i].0@, g@));
                            if j - 1 == p {
                                lemma_before_transitive(prev[i].0@, g@, prev[p as int].0@);
                            } else {
                                assert(text_before(prev[p as int].0@, prev[j - 1].0@));
                                lemma_before_transitive(g@, prev[p as int].0@, prev[j - 1].0@);
                                lemma_before_transitive(prev[i].0@, g@, prev[j - 1].0@);
                            }
                        } else if i == p {
                            assert(c@[j] == prev[j - 1]);
                            if j - 1 > p {
                                assert(text_before(prev[p as int].0@, prev[j - 1].0@));
                                lemma_before_transitive(g@, prev[p as int].0@, prev[j - 1].0@);
                            }
                        } else {
                            assert(c@[i] == prev[i - 1] && c@[j] == prev[j - 1]);
                        }
                    }
                    assert forall|i: int| #![trigger c@[i]] 0 <= i < c@.len() implies c@[i].1
                        == m.insert(g@).count(c@[i].0@) && m.insert(g@).count(c@[i].0@) > 0 by {
                        if i < p {
                            assert(c@[i] == prev[i]);
                        } else if i > p {
                            assert(c@[i] == prev[i - 1]);
                        }
                    }
                    assert forall|x: Seq<char>| #[trigger]
                        m.insert(g@).count(x) > 0 implies exists|i: int|
                        0 <= i < c@.len() && #[trigger] c@[i].0@ == x by {
                        if x == g@ {
                            assert(c@[p as int].0@ == x);
                        } else {
                            let i = choose|i: int| 0 <= i < prev.len() && #[trigger] prev[i].0@ == x;
                            if i < p {
                                assert(c@[i].0@ == x);
                            } else {
                                assert(c@[i + 1].0@ == x);
                            }
                        }
                    }
                }
                return;
            },
        }
    }
    let ghost prev = c@;
    proof {
        assert forall|i: int| 0 <= i < prev.len() implies prev[i].0@ != g@ by {
            lemma_before_irreflexive(g@);
        }
        assert(m.count(g@) == 0);
    }
    c.push((g.clone(), 1));
    proof {
        assert forall|i: int, j: int|
            #![trigger c@[i], c@[j]]
            0 <= i < j < c@.len() implies text_before(c@[i].0@, c@[j].0@) by {
            assert(c@[i] == prev[i]);
            if j < prev.len() {
                assert(c@[j] == prev[j]);
            }
        }
        assert forall|i: int| #![trigger c@[i]] 0 <= i < c@.len() implies c@[i].1 == m.insert(
            g@,
        ).count(c@[i].0@) && m.insert(g@).count(c@[i].0@) > 0 by {
            if i < prev.len() {
                assert(c@[i] == prev[i]);
            }
        }
        assert forall|x: Seq<char>| #[trigger]
            m.insert(g@).count(x) > 0 implies exists|i: int|
            0 <= i < c@.len() && #[trigger] c@[i].0@ == x by {
            if x == g@ {
                assert(c@[prev.len() as int].0@ == x);
            } else {
                let i = choose|i: int| 0 <= i < prev.len() && #[trigger] prev[i].0@ == x;
                assert(c@[i].0@ == x);
            }
        }
    }
}

/// Whether `g` occurs among the first `j` genres of `genres`.
fn listed_before(genres: &Vec<String>, j: usize, g: &String) -> (r: bool)
    requires
        j <= genres.len(),
    ensures
        r == texts(genres@).take(j as int).contains(g@),
{
    let mut k: usize = 0;
    while k < j
        invariant
            k <= j <= genres.len(),
            forall|q: int| 0 <= q < k ==> genres@[q]@ != g@,
        decreases j - k,
    {
        if genres[k] == *g {
            assert(texts(genres@).take(j as int)[k as int] == g@);
            return true;
        }
        k += 1;
    }
    proof {
        if texts(genres@).take(j as int).contains(g@) {
            let q = choose|q: int|
                0 <= q < j && #[trigger] texts(genres@).take(j as int)[q] == g@;
            assert(genres@[q]@ == g@);
        }
    }
    false
}

impl Playlist {
    /// Each genre occurring in the playlist with the number of tracks that
    /// have it, sorted by genre. All tracks count, whatever the genre filters.
    pub fn genre_counts(&self) -> (r: Vec<(String, usize)>)
        ensures
            is_tally(r@, all_genres(self.tracks@).to_multiset()),
            forall|g: Seq<char>|
                #[trigger] all_genres(self.tracks@).to_multiset().count(g) == tracks_with(
                    self.tracks@,
                    g,
                ),
    {
        let mut counts: Vec<(String, usize)> = Vec::new();
        let ghost tracks = self.tracks@;
        proof {
            assert(tracks.take(0) =~= Seq::<Track>::empty());
            assert(all_genres(tracks.take(0)) =~= Seq::<Seq<char>>::empty());
            assert(all_genres(tracks.take(0)).to_multiset().len() == 0);
        }
        let mut i: usize = 0;
        while i < self.tracks.len()
            invariant
                tracks == self.tracks@,
                i <= tracks.len(),
                is_tally(counts@, all_genres(tracks.take(i as int)).to_multiset()),
            decreases tracks.len() - i,
        {
            let genres = &self.tracks[i].genres;
            let ghost done = all_genres(tracks.take(i as int));
            let ghost these = texts(genres@);
            proof {
                lemma_all_genres_step(tracks, i as int);
                assert(these.take(0) =~= Seq::<Seq<char>>::empty());
                assert(first_occurrences(these.take(0)) =~= Seq::<Seq<char>>::empty());
                assert(done + first_occurrences(these.take(0)) =~= done);
            }
            let mut j: usize = 0;
            while j < genres.len()
                invariant
                    tracks == self.tracks@,
                    i < tracks.len(),
                    i < self.tracks.len(),
                    j <= genres.len(),
                    genres == tracks[i as int].genres,
                    these == texts(genres@),
                    done == all_genres(tracks.take(i as int)),
                    is_tally(counts@, (done + first_occurrences(these.take(j as int))).to_multiset()),
                decreases genres.len() - j,
            {
                let ghost fo = first_occurrences(these.take(j as int));
                let ghost before = done + fo;
                proof {
                    assert(these.take(j + 1).drop_last() =~= these.take(j as int));
                    assert(these.take(j + 1).last() == these[j as int]);
                    assert(these[j as int] == genres@[j as int]@);
                }
                if !listed_before(genres, j, &genres[j]) {
                    proof {
                        let g = genres@[j as int]@;
                        lemma_all_genres_count(tracks.take(i as int), g);
                        lemma_first_occurrences_count(these.take(j as int), g);
                        vstd::seq_lib::lemma_multiset_commutative(done, fo);
                        assert(before.to_multiset().count(g) <= i);
                        assert(i < self.tracks.len());
                    }
                    tally_add(&mut counts, &genres[j], Ghost(before.to_multiset()));
                    proof {
                        assert(before.push(these[j as int]) =~= done + first_occurrences(
                            these.take(j + 1),
                        ));
                        assert(before.push(these[j as int]).to_multiset() =~= before.to_multiset().insert(
                            these[j as int],
                        ));
                    }
                } else {
                    assert(first_occurrences(these.take(j + 1)) == fo);
                }
                j += 1;
            }
            proof {
                assert(these.take(genres.len() as int) =~= these);
            }
            i += 1;
        }
        proof {
            assert(tracks.take(tracks.len() as int) =~= tracks);
            assert forall|g: Seq<char>|
                #[trigger] all_genres(tracks).to_multiset().count(g) == tracks_with(tracks, g) by {
                lemma_all_genres_count(tracks, g);
            }
        }
        counts
    }
}

} // verus!
