//! Taking the incoming batch out of the shared definitions document.
use vstd::prelude::*;
use crate::pattern::{opt_view, regex_first_group, regex_all_first_groups};
use crate::text::views;
use crate::document::{Markers, SyncError, TEMPLATE_NAME_REGEX, SHARED_TEMPLATES_REGEX};

verus! {

/// The template definitions to merge in, as one piece of text, and the
/// names they carry.
pub struct IncomingBatch {
    pub text: String,
    pub names: Vec<String>,
}

/// The names among the groups that took part, in order.
pub open spec fn present_names(groups: Seq<Option<Seq<char>>>) -> Seq<Seq<char>>
    decreases groups.len(),
{
    if groups.len() == 0 {
        Seq::empty()
    } else {
        let rest = present_names(groups.drop_last());
        match groups.last() {
            Some(n) => rest.push(n),
            None => rest,
        }
    }
}

/// The region of the shared definitions document that holds the batch.
pub open spec fn batch_region(defs: Seq<char>) -> Option<Seq<char>> {
    regex_first_group(SHARED_TEMPLATES_REGEX@, defs)
}

/// The template names that a batch's text declares, in order.
pub open spec fn names_in(batch: Seq<char>) -> Seq<Seq<char>> {
    present_names(regex_all_first_groups(TEMPLATE_NAME_REGEX@, batch))
}

/// The names held by the groups that took part in their match, in order.
pub fn names_from_groups(groups: &Vec<Option<String>>) -> (r: Vec<String>)
    ensures
        views(r@) == present_names(groups@.map_values(|o: Option<String>| opt_view(o))),
{
    let ghost gs = groups@.map_values(|o: Option<String>| opt_view(o));
    let mut names: Vec<String> = Vec::new();
    let mut i: usize = 0;
    while i < groups.len()
        invariant
            i <= groups@.len(),
            gs == groups@.map_values(|o: Option<String>| opt_view(o)),
            views(names@) == present_names(gs.subrange(0, i as int)),
        decreases groups@.len() - i,
    {
        let ghost before = names@;
        assert(gs.subrange(0, i + 1).drop_last() =~= gs.subrange(0, i as int));
        match &groups[i] {
            Some(n) => {
                names.push(n.clone());
                assert(views(names@) =~= views(before).push(n@));
            },
            None => {},
        }
        i += 1;
    }
    assert(gs.subrange(0, i as int) =~= gs);
    names
}

/// The batch held by the shared definitions document `defs`, with the
/// names of its templates; an error where `defs` has no such region.
pub fn extract_batch(markers: &Markers, defs: &str) -> (r: Result<IncomingBatch, SyncError>)
    requires
        markers.wf(),
    ensures
        r is Err <==> batch_region(defs@) is None,
        r matches Err(e) ==> e == SyncError::MissingSharedRegion,
        r matches Ok(b) ==> Some(b.text@) == batch_region(defs@) && views(b.names@) == names_in(b.text@),
{
    match markers.shared.first_group(defs) {
        None => Err(SyncError::MissingSharedRegion),
        Some(text) => {
            let groups = markers.name.all_first_groups(text.as_str());
            let names = names_from_groups(&groups);
            Ok(IncomingBatch { text, names })
        },
    }
}

} // verus!
