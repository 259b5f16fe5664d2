use vstd::prelude::*;
use crate::types::SectionType;

verus! {

/// The type of the section that follows a song's sections so far: a verse
/// after the intro, a pre-chorus after an early verse and a bridge after a
/// later one, a chorus after a pre-chorus or a bridge, a verse after a
/// chorus or an outro, and a verse to open an empty song.
pub open spec fn next_section(sections: Seq<SectionType>) -> SectionType {
    if sections.len() == 0 {
        SectionType::Verse
    } else {
        match sections.last() {
            SectionType::Intro => SectionType::Verse,
            SectionType::Verse => if sections.len() < 3 {
                SectionType::PreChorus
            } else {
                SectionType::Bridge
            },
            SectionType::PreChorus => SectionType::Chorus,
            SectionType::Chorus => SectionType::Verse,
            SectionType::Bridge => SectionType::Chorus,
            SectionType::Outro => SectionType::Verse,
        }
    }
}

/// Picks the type of the section that follows the given ones.
pub fn determine_next_section(current_sections: &[SectionType]) -> (t: SectionType)
    ensures
        t == next_section(current_sections@),
{
    let n = current_sections.len();
    if n == 0 {
        return SectionType::Verse;
    }
    match current_sections[n - 1] {
        SectionType::Intro => SectionType::Verse,
        SectionType::Verse => if n < 3 {
            SectionType::PreChorus
        } else {
            SectionType::Bridge
        },
        SectionType::PreChorus => SectionType::Chorus,
        SectionType::Chorus => SectionType::Verse,
        SectionType::Bridge => SectionType::Chorus,
        SectionType::Outro => SectionType::Verse,
    }
}

/// The type that a detected section takes after the given ones: a chorus
/// right after a chorus becomes a verse; a chorus right after a verse
/// becomes a pre-chorus while the song has none yet; any other detection
/// stands.
pub open spec fn refined_section(detected: SectionType, sections: Seq<SectionType>) -> SectionType {
    if sections.len() == 0 {
        detected
    } else if sections.last() == SectionType::Chorus && detected == SectionType::Chorus {
        SectionType::Verse
    } else if sections.last() == SectionType::Verse && detected == SectionType::Chorus {
        if !sections.contains(SectionType::PreChorus) {
            SectionType::PreChorus
        } else {
            detected
        }
    } else {
        detected
    }
}

fn has_pre_chorus(sections: &[SectionType]) -> (r: bool)
    ensures
        r == sections@.contains(SectionType::PreChorus),
{
    let mut i: usize = 0;
    while i < sections.len()
        invariant
            i <= sections@.len(),
            forall|j: int| 0 <= j < i ==> sections@[j] != SectionType::PreChorus,
        decreases sections@.len() - i,
    {
        if sections[i] == SectionType::PreChorus {
            assert(sections@[i as int] == SectionType::PreChorus);
            return true;
        }
        i = i + 1;
    }
    false
}

/// Adjusts the detected type of a section to the sections before it.
pub fn refine_section_type(detected_type: SectionType, current_sections: &[SectionType]) -> (t: SectionType)
    ensures
        t == refined_section(detected_type, current_sections@),
{
    let n = current_sections.len();
    if n == 0 {
        return detected_type;
    }
    let last = current_sections[n - 1];
    if last == SectionType::Chorus && detected_type == SectionType::Chorus {
        SectionType::Verse
    } else if last == SectionType::Verse && detected_type == SectionType::Chorus {
        if !has_pre_chorus(current_sections) {
            SectionType::PreChorus
        } else {
            detected_type
        }
    } else {
        detected_type
    }
}

/// A pre-chorus always leads into a chorus, and a chorus is always
/// followed by a verse.
pub proof fn lemma_next_section_transitions(sections: Seq<SectionType>)
    requires
        sections.len() > 0,
    ensures
        sections.last() == SectionType::PreChorus ==> next_section(sections) == SectionType::Chorus,
        sections.last() == SectionType::Chorus ==> next_section(sections) == SectionType::Verse,
{
}

/// A detected chorus never directly follows a chorus.
pub proof fn lemma_no_consecutive_choruses(detected: SectionType, sections: Seq<SectionType>)
    requires
        sections.len() > 0,
        sections.last() == SectionType::Chorus,
    ensures
        refined_section(detected, sections) != SectionType::Chorus,
{
}

/// A detection stands unless it is a chorus: only a detected chorus is
/// ever changed, and only a chorus right after a chorus or right after a
/// verse. After any other section, or at the start, every detection stands.
pub proof fn lemma_refine_keeps_detection(detected: SectionType, sections: Seq<SectionType>)
    ensures
        detected != SectionType::Chorus ==> refined_section(detected, sections) == detected,
        sections.len() == 0 ==> refined_section(detected, sections) == detected,
        sections.len() > 0 && sections.last() != SectionType::Verse && sections.last()
            != SectionType::Chorus ==> refined_section(detected, sections) == detected,
{
}

/// A chorus detected right after a chorus becomes a verse; one detected
/// right after a verse becomes a pre-chorus exactly when the song has no
/// pre-chorus yet, and stays a chorus otherwise.
pub proof fn lemma_refine_chorus(sections: Seq<SectionType>)
    requires
        sections.len() > 0,
    ensures
        sections.last() == SectionType::Chorus ==> refined_section(SectionType::Chorus, sections)
            == SectionType::Verse,
        sections.last() == SectionType::Verse ==> (refined_section(SectionType::Chorus, sections)
            == SectionType::PreChorus <==> forall|k: int|
            0 <= k < sections.len() ==> sections[k] != SectionType::PreChorus),
        sections.last() == SectionType::Verse ==> refined_section(SectionType::Chorus, sections)
            == SectionType::PreChorus || refined_section(SectionType::Chorus, sections)
            == SectionType::Chorus,
{
    if sections.last() == SectionType::Verse {
        if sections.contains(SectionType::PreChorus) {
            let k = choose|k: int| 0 <= k < sections.len() && sections[k] == SectionType::PreChorus;
            assert(sections[k] == SectionType::PreChorus);
        } else {
            assert forall|k: int| 0 <= k < sections.len() implies sections[k]
                != SectionType::PreChorus by {
                if sections[k] == SectionType::PreChorus {
                    assert(sections.contains(SectionType::PreChorus));
                }
            }
        }
    }
}

/// What follows each kind of section: a song starts with a verse; an intro
/// and an outro lead to a verse; a verse leads to a pre-chorus while the song
/// has fewer than three sections and to a bridge after that; a pre-chorus and
/// a bridge lead to a chorus; a chorus leads to a verse.
pub proof fn lemma_next_section_table(sections: Seq<SectionType>)
    ensures
        sections.len() == 0 ==> next_section(sections) == SectionType::Verse,
        sections.len() > 0 && sections.last() == SectionType::Intro ==> next_section(sections)
            == SectionType::Verse,
        sections.len() > 0 && sections.last() == SectionType::Outro ==> next_section(sections)
            == SectionType::Verse,
        sections.len() > 0 && sections.last() == SectionType::Verse ==> (next_section(sections)
            == SectionType::PreChorus <==> sections.len() < 3),
        sections.len() > 0 && sections.last() == SectionType::Verse ==> (next_section(sections)
            == SectionType::Bridge <==> sections.len() >= 3),
        sections.len() > 0 && sections.last() == SectionType::Bridge ==> next_section(sections)
            == SectionType::Chorus,
        sections.len() > 0 && sections.last() == SectionType::PreChorus ==> next_section(sections)
            == SectionType::Chorus,
        sections.len() > 0 && sections.last() == SectionType::Chorus ==> next_section(sections)
            == SectionType::Verse,
{
}

} // verus!
