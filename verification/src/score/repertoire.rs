//! The bundled starter library: short public-domain melodies in the import
//! subset, each named by its slug.

use vstd::prelude::*;
use crate::score::importer::{import_bytes, ImportError, ImportFailure, MusicXmlImporter, PieceSpec};
use crate::score::model::Exercise;

verus! {

#[derive(Debug, Clone, PartialEq)]
pub struct RepertoirePiece {
    pub slug: String,
    pub title: String,
    pub exercise: Exercise,
}

impl RepertoirePiece {
    /// The piece's identity: its slug.
    pub fn id(&self) -> (s: &str)
        ensures
            s@ == self.slug@,
    {
        self.slug.as_str()
    }
}

/// A piece holds what importing its source gave, under its slug.
pub open spec fn piece_is(p: RepertoirePiece, slug: Seq<char>, q: PieceSpec) -> bool {
    &&& p.slug@ == slug
    &&& p.title@ == q.title
    &&& p.exercise.notes@ == q.notes
    &&& p.exercise.bass_notes@ == q.bass
    &&& p.exercise.beats_per_measure as int == q.beats
    &&& p.exercise.fifths as int == q.fifths
}

/// The sources that import, in order, with what they import to; and the
/// ones that do not, with why.
pub open spec fn library_spec(sources: Seq<(Seq<char>, Seq<u8>)>) -> (Seq<(Seq<char>, PieceSpec)>, Seq<(Seq<char>, ImportFailure)>)
    decreases sources.len(),
{
    if sources.len() == 0 {
        (Seq::empty(), Seq::empty())
    } else {
        let (ok, failed) = library_spec(sources.drop_last());
        let (slug, bytes) = sources.last();
        match import_bytes(bytes, slug) {
            Ok(q) => (ok.push((slug, q)), failed),
            Err(f) => (ok, failed.push((slug, f))),
        }
    }
}

/// The views of a source list.
pub open spec fn sources_view(sources: Seq<(&str, &[u8])>) -> Seq<(Seq<char>, Seq<u8>)> {
    sources.map_values(|s: (&str, &[u8])| (s.0@, s.1@))
}

pub struct RepertoireLibrary;

impl RepertoireLibrary {
    /// Imports every `(slug, MusicXML bytes)` source, each titled by its
    /// slug when the score names no title. Sources outside the import
    /// subset are set aside with their error, not loaded.
    pub fn parse_all(sources: &[(&str, &[u8])]) -> (r: (Vec<RepertoirePiece>, Vec<(String, ImportError)>))
        ensures
            ({
                let (ok, failed) = library_spec(sources_view(sources@));
                &&& r.0@.len() == ok.len()
                &&& forall|i: int| 0 <= i < ok.len() ==> piece_is(#[trigger] r.0@[i], ok[i].0, ok[i].1)
                &&& r.1@.len() == failed.len()
                &&& forall|i: int| 0 <= i < failed.len() ==> (#[trigger] r.1@[i]).0@ == failed[i].0 && r.1@[i].1@ == failed[i].1
            }),
    {
        let mut pieces: Vec<RepertoirePiece> = Vec::new();
        let mut failures: Vec<(String, ImportError)> = Vec::new();
        let mut k: usize = 0;
        while k < sources.len()
            invariant
                k <= sources@.len(),
                ({
                    let (ok, failed) = library_spec(sources_view(sources@).take(k as int));
                    &&& pieces@.len() == ok.len()
                    &&& forall|i: int| 0 <= i < ok.len() ==> piece_is(#[trigger] pieces@[i], ok[i].0, ok[i].1)
                    &&& failures@.len() == failed.len()
                    &&& forall|i: int| 0 <= i < failed.len() ==> (#[trigger] failures@[i]).0@ == failed[i].0 && failures@[i].1@ == failed[i].1
                }),
            decreases sources.len() - k,
        {
            let (slug, bytes) = sources[k];
            proof {
                let v = sources_view(sources@);
                assert(v.take(k + 1).drop_last() =~= v.take(k as int));
                assert(v.take(k + 1).last() == (slug@, bytes@));
            }
            match MusicXmlImporter::parse(bytes, slug) {
                Ok(imported) => {
                    pieces.push(RepertoirePiece {
                        slug: String::from_str(slug),
                        title: imported.title,
                        exercise: imported.exercise,
                    });
                },
                Err(e) => {
                    failures.push((String::from_str(slug), e));
                },
            }
            k = k + 1;
        }
        proof {
            assert(sources_view(sources@).take(sources@.len() as int) =~= sources_view(sources@));
        }
        (pieces, failures)
    }
}

} // verus!
