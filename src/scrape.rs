use std::collections::VecDeque;
use vstd::prelude::*;

use crate::info_json::{parses_as_json, title_of, InfoJson, InfoJsonError};
use crate::sidecar::{base_of, has_suffix, Sidecar};

verus! {

/// Whether the scraper hands a listing entry on: a path that ends in the
/// sidecar suffix, or a failure to read the entry, which is passed through.
pub open spec fn kept<E>(entry: Result<Vec<u8>, E>) -> bool {
    match entry {
        Ok(p) => has_suffix(p@),
        Err(_) => true,
    }
}

/// The entries of a listing that the scraper hands on, in listing order.
pub open spec fn selected<E>(entries: Seq<Result<Vec<u8>, E>>) -> Seq<Result<Vec<u8>, E>> {
    entries.filter(|e: Result<Vec<u8>, E>| kept(e))
}

/// The base paths of the sidecar paths among the entries.
pub open spec fn sidecar_bases<E>(entries: Seq<Result<Vec<u8>, E>>) -> Set<Seq<u8>> {
    Set::new(
        |b: Seq<u8>|
            exists|i: int|
                #![trigger entries[i]]
                0 <= i < entries.len() && entries[i] is Ok && has_suffix(entries[i]->Ok_0@) && b
                    == base_of(entries[i]->Ok_0@),
    )
}

/// What the scraper asks its caller to do next.
pub enum Step<E> {
    /// The listing is exhausted.
    Done,
    /// Reading a listing entry failed; the error is handed on as it came.
    Failed(E),
    /// The contents of this sidecar are to be read and handed to
    /// [`read_sidecar`].
    Load(Sidecar),
}

/// A failure at one position of a scrape. `E` is the caller's I/O error.
#[derive(Debug)]
pub enum ScrapeError<E> {
    /// A listing entry could not be read.
    Access(E),
    /// The sidecar at this path could not be read.
    Read(Vec<u8>, E),
    /// The sidecar at this path does not hold valid metadata.
    Parse(Vec<u8>, InfoJsonError),
}

/// A single-pass cursor over the entries of one directory listing. It hands
/// on the sidecars, and the failures to read an entry, one at a time, in
/// listing order; other entries are skipped.
pub struct Scraper<E> {
    pending: VecDeque<Result<Vec<u8>, E>>,
}

impl<E> Scraper<E> {
    /// The listing entries not yet looked at, in listing order.
    pub closed spec fn entries(&self) -> Seq<Result<Vec<u8>, E>> {
        self.pending@
    }

    /// What the scraper has yet to hand on.
    pub open spec fn remaining(&self) -> Seq<Result<Vec<u8>, E>> {
        selected(self.entries())
    }

    /// A scraper over the entries of one listing, each the path of an entry
    /// or the error met in reading it. Nothing is read or parsed here.
    pub fn new(listing: Vec<Result<Vec<u8>, E>>) -> (r: Self)
        ensures
            r.entries() == listing@,
    {
        let ghost all = listing@;
        let mut listing = listing;
        let mut pending: VecDeque<Result<Vec<u8>, E>> = VecDeque::new();
        while listing.len() > 0
            invariant
                listing@.len() <= all.len(),
                listing@ == all.subrange(0, listing@.len() as int),
                pending@ == all.subrange(listing@.len() as int, all.len() as int),
            decreases listing@.len(),
        {
            match listing.pop() {
                Some(entry) => pending.push_front(entry),
                None => {},
            }
            assert(listing@ =~= all.subrange(0, listing@.len() as int));
            assert(pending@ =~= all.subrange(listing@.len() as int, all.len() as int));
        }
        assert(pending@ =~= all);
        Scraper { pending }
    }

    /// Moves to the next entry that is handed on: a failure to read an entry
    /// comes back as it is, a sidecar comes back to be loaded, and the entries
    /// before it that are neither are skipped.
    pub fn next_step(&mut self) -> (r: Step<E>)
        ensures
            match r {
                Step::Done => old(self).remaining().len() == 0 && final(self).entries().len() == 0,
                Step::Failed(e) => old(self).remaining() == seq![Err::<Vec<u8>, E>(e)]
                    + final(self).remaining(),
                Step::Load(s) => {
                    &&& old(self).remaining().len() > 0
                    &&& old(self).remaining()[0] is Ok
                    &&& old(self).remaining()[0]->Ok_0@ == s@
                    &&& final(self).remaining() == old(self).remaining().drop_first()
                },
            },
            exists|k: int|
                0 <= k <= old(self).entries().len() && final(self).entries()
                    == old(self).entries().subrange(k, old(self).entries().len() as int),
    {
        let ghost start = self.pending@;
        let ghost mut k: int = 0;
        assert(start.subrange(0, start.len() as int) =~= start);
        loop
            invariant
                selected(self.pending@) == selected(start),
                0 <= k <= start.len(),
                self.pending@ == start.subrange(k, start.len() as int),
                start == old(self).entries(),
            decreases self.pending@.len(),
        {
            let ghost before = self.pending@;
            proof {
                if before.len() > 0 {
                    lemma_selected_front(before);
                    assert(before.drop_first() =~= start.subrange(k + 1, start.len() as int));
                }
            }
            match self.pending.pop_front() {
                None => {
                    proof {
                        reveal_with_fuel(Seq::filter, 1);
                    }
                    assert(selected(before) =~= Seq::<Result<Vec<u8>, E>>::empty());
                    return Step::Done;
                },
                Some(Err(e)) => {
                    proof {
                        k = k + 1;
                    }
                    return Step::Failed(e);
                },
                Some(Ok(path)) => match Sidecar::new(path) {
                    Some(s) => {
                        proof {
                            k = k + 1;
                        }
                        return Step::Load(s);
                    },
                    None => {
                        proof {
                            k = k + 1;
                        }
                    },
                },
            }
        }
    }
}

/// Reads one sidecar, given its contents or the error met in reading them.
/// It succeeds exactly when the contents were read and parse into metadata;
/// it then hands back the base path that the sidecar shares with its video
/// and thumbnail, and the parsed metadata. A failure names the sidecar's path.
pub fn read_sidecar<E>(sidecar: Sidecar, contents: Result<Vec<u8>, E>) -> (r: Result<
    (Vec<u8>, InfoJson),
    ScrapeError<E>,
>)
    ensures
        match contents {
            Err(e) => r matches Err(ScrapeError::Read(p, e2)) && p@ == sidecar@ && e2 == e,
            Ok(b) => match r {
                Ok((base, info)) => {
                    &&& base@ == base_of(sidecar@)
                    &&& parses_as_json(b@)
                    &&& title_of(b@) == Some(info.title@)
                },
                Err(ScrapeError::Parse(p, err)) => p@ == sidecar@ && match err {
                    InfoJsonError::Json(_) => !parses_as_json(b@),
                    InfoJsonError::MissingTitle => parses_as_json(b@) && title_of(b@) is None,
                },
                Err(_) => false,
            },
        },
{
    match contents {
        Err(e) => Err(ScrapeError::Read(sidecar.into_path(), e)),
        Ok(bytes) => match InfoJson::from_bytes(bytes.as_slice()) {
            Ok(info) => Ok((sidecar.into_base_path(), info)),
            Err(err) => Err(ScrapeError::Parse(sidecar.into_path(), err)),
        },
    }
}

/// Selecting from a non-empty listing selects from its first entry, then
/// from the rest.
proof fn lemma_selected_front<E>(s: Seq<Result<Vec<u8>, E>>)
    requires
        s.len() > 0,
    ensures
        selected(s) == (if kept(s[0]) {
            seq![s[0]]
        } else {
            Seq::<Result<Vec<u8>, E>>::empty()
        }) + selected(s.drop_first()),
{
    let pred = |e: Result<Vec<u8>, E>| kept(e);
    let head = seq![s[0]];
    assert(s =~= head + s.drop_first());
    Seq::filter_distributes_over_add(head, s.drop_first(), pred);
    reveal_with_fuel(Seq::filter, 2);
    assert(head.drop_last() =~= Seq::<Result<Vec<u8>, E>>::empty());
    if kept(s[0]) {
        assert(head.filter(pred) =~= head);
    } else {
        assert(head.filter(pred) =~= Seq::<Result<Vec<u8>, E>>::empty());
    }
}

/// An entry is selected exactly when it is in the listing and kept.
proof fn lemma_selected_contains<E>(s: Seq<Result<Vec<u8>, E>>)
    ensures
        forall|x: Result<Vec<u8>, E>| #[trigger]
            selected(s).contains(x) <==> s.contains(x) && kept(x),
    decreases s.len(),
{
    if s.len() == 0 {
        reveal_with_fuel(Seq::filter, 1);
        assert(selected(s) =~= s);
    } else {
        lemma_selected_front(s);
        lemma_selected_contains(s.drop_first());
        let head: Seq<Result<Vec<u8>, E>> = if kept(s[0]) {
            seq![s[0]]
        } else {
            Seq::empty()
        };
        assert forall|x: Result<Vec<u8>, E>| #[trigger]
            selected(s).contains(x) <==> s.contains(x) && kept(x) by {
            let rest = selected(s.drop_first());
            if selected(s).contains(x) {
                let k = choose|k: int| 0 <= k < selected(s).len() && selected(s)[k] == x;
                if k < head.len() {
                    assert(s[0] == x);
                } else {
                    assert(rest[k - head.len()] == x);
                    assert(rest.contains(x));
                    let j = choose|j: int|
                        0 <= j < s.drop_first().len() && s.drop_first()[j] == x;
                    assert(s[j + 1] == x);
                }
            }
            if s.contains(x) && kept(x) {
                let j = choose|j: int| 0 <= j < s.len() && s[j] == x;
                if j == 0 {
                    assert(selected(s)[0] == x);
                } else {
                    assert(s.drop_first()[j - 1] == x);
                    assert(rest.contains(x));
                    let k = choose|k: int| 0 <= k < rest.len() && rest[k] == x;
                    assert(selected(s)[k + head.len()] == x);
                }
            }
        }
    }
}

/// An entry that the scraper keeps takes one position of the outcome,
/// whatever later becomes of it, and the entries after it follow in order.
pub proof fn lemma_kept_entry_takes_one_position<E>(
    entry: Result<Vec<u8>, E>,
    rest: Seq<Result<Vec<u8>, E>>,
)
    requires
        kept(entry),
    ensures
        selected(seq![entry] + rest) == seq![entry] + selected(rest),
{
    let s = seq![entry] + rest;
    lemma_selected_front(s);
    assert(s.drop_first() =~= rest);
}

/// A listing with no sidecar and no failure yields nothing.
pub proof fn lemma_no_sidecars_yield_nothing<E>(entries: Seq<Result<Vec<u8>, E>>)
    requires
        forall|i: int|
            0 <= i < entries.len() ==> #[trigger] entries[i] is Ok && !has_suffix(
                entries[i]->Ok_0@,
            ),
    ensures
        selected(entries).len() == 0,
{
    lemma_selected_contains(entries);
    if selected(entries).len() > 0 {
        let x = selected(entries)[0];
        assert(selected(entries).contains(x));
        let j = choose|j: int| 0 <= j < entries.len() && entries[j] == x;
        assert(entries[j] is Ok);
    }
}

/// The base paths of what the scraper hands on are exactly the listed sidecar
/// paths with the suffix removed, and every path that it hands on ends in the
/// suffix: no other file contributes.
pub proof fn lemma_bases_are_sidecar_bases<E>(entries: Seq<Result<Vec<u8>, E>>)
    ensures
        sidecar_bases(selected(entries)) == sidecar_bases(entries),
        forall|i: int|
            0 <= i < selected(entries).len() && #[trigger] selected(entries)[i] is Ok
                ==> has_suffix(selected(entries)[i]->Ok_0@),
{
    let sel = selected(entries);
    lemma_selected_contains(entries);
    assert forall|i: int| 0 <= i < sel.len() && #[trigger] sel[i] is Ok implies has_suffix(
        sel[i]->Ok_0@,
    ) by {
        assert(sel.contains(sel[i]));
    }
    assert forall|b: Seq<u8>| #[trigger]
        sidecar_bases(sel).contains(b) <==> sidecar_bases(entries).contains(b) by {
        if sidecar_bases(sel).contains(b) {
            let i = choose|i: int|
                #![trigger sel[i]]
                0 <= i < sel.len() && sel[i] is Ok && has_suffix(sel[i]->Ok_0@) && b == base_of(
                    sel[i]->Ok_0@,
                );
            assert(sel.contains(sel[i]));
            let j = choose|j: int| 0 <= j < entries.len() && entries[j] == sel[i];
            assert(entries[j] == sel[i]);
        }
        if sidecar_bases(entries).contains(b) {
            let j = choose|j: int|
                #![trigger entries[j]]
                0 <= j < entries.len() && entries[j] is Ok && has_suffix(entries[j]->Ok_0@) && b
                    == base_of(entries[j]->Ok_0@);
            assert(entries.contains(entries[j]));
            assert(sel.contains(entries[j]));
            let i = choose|i: int| 0 <= i < sel.len() && sel[i] == entries[j];
            assert(sel[i] == entries[j]);
        }
    }
    assert(sidecar_bases(sel) =~= sidecar_bases(entries));
}

} // verus!
