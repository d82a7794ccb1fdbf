use vstd::prelude::*;

use crate::config::SearchKind;
use crate::display::PER_PAGE;
use crate::history::SearchState;
use crate::ids::random_uuid;

verus! {

/// A search to run: on which service, for what, and under which identifier its errors are kept.
#[derive(Clone, Debug)]
pub struct SearchRequest {
    pub kind: SearchKind,
    pub query: String,
    pub search_id: u128,
}

/// Starts a search for the text of the page: nothing for an empty text; otherwise both result
/// pages go back to the first, and the search gets a fresh random identifier.
pub fn start_search(state: &mut SearchState) -> (r: Option<SearchRequest>)
    ensures
        old(state).text@.len() == 0 ==> r is None && *final(state) == *old(state),
        old(state).text@.len() > 0 ==> (r matches Some(q) && q.kind == old(state).kind && q.query@
            == old(state).text@ && final(state).search_id == q.search_id),
        old(state).text@.len() > 0 ==> final(state).text == old(state).text && final(state).kind
            == old(state).kind && final(state).series_page == 0 && final(state).movies_page == 0,
{
    if state.text.as_str().unicode_len() == 0 {
        return None;
    }
    state.series_page = 0;
    state.movies_page = 0;
    let search_id = random_uuid();
    state.search_id = search_id;
    let query = state.text.clone();
    Some(SearchRequest { kind: state.kind, query, search_id })
}

/// The results shown on a page: from `page * PER_PAGE`, at most `PER_PAGE` of them.
pub fn page_window(len: usize, page: usize) -> (r: (usize, usize))
    requires
        page * PER_PAGE + PER_PAGE <= usize::MAX,
    ensures
        r.0 == (if page * PER_PAGE <= len {
            page * PER_PAGE
        } else {
            len as int
        }),
        r.1 == (if r.0 + PER_PAGE <= len {
            r.0 + PER_PAGE
        } else {
            len as int
        }),
{
    let start = if page * PER_PAGE <= len {
        page * PER_PAGE
    } else {
        len
    };
    let end = if start + PER_PAGE <= len {
        start + PER_PAGE
    } else {
        len
    };
    (start, end)
}

} // verus!
