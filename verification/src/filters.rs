//! Filters of the read endpoints: the archive by status, the event log by
//! type and text, and the pattern of a text search.

use vstd::prelude::*;
use vstd::string::StringExecFns;
use crate::error::EngineError;
use crate::records::{views, Order, OrderView};
use crate::status::{status_named, OrderStatus};
use crate::text::str_eq;

verus! {

/// Which orders an archive listing shows.
#[derive(Clone, Copy, Debug, PartialEq, Eq, Structural)]
pub enum ArchiveFilter {
    /// Orders in any status.
    All,
    /// Closed and cancelled orders.
    Archived,
    /// Orders in one status.
    Status(OrderStatus),
}

/// The filter that a text names: `All`, `Archived`, or the wire name of a
/// status.
pub open spec fn archive_filter_named(text: Seq<char>) -> Option<ArchiveFilter> {
    if text == "All"@ {
        Some(ArchiveFilter::All)
    } else if text == "Archived"@ {
        Some(ArchiveFilter::Archived)
    } else {
        match status_named(text) {
            Some(s) => Some(ArchiveFilter::Status(s)),
            None => None,
        }
    }
}

impl ArchiveFilter {
    /// Whether the filter lets an order in this status through.
    pub open spec fn admits(self, status: OrderStatus) -> bool {
        match self {
            ArchiveFilter::All => true,
            ArchiveFilter::Archived => status.terminal(),
            ArchiveFilter::Status(s) => status == s,
        }
    }

    /// Reads a filter; a text that names none is refused as an invalid
    /// status.
    pub fn parse(text: &str) -> (r: Result<ArchiveFilter, EngineError>)
        ensures
            match r {
                Ok(f) => archive_filter_named(text@) == Some(f),
                Err(e) => archive_filter_named(text@) is None && e == EngineError::InvalidStatus,
            },
    {
        if str_eq(text, "All") {
            Ok(ArchiveFilter::All)
        } else if str_eq(text, "Archived") {
            Ok(ArchiveFilter::Archived)
        } else {
            match OrderStatus::parse(text) {
                Some(s) => Ok(ArchiveFilter::Status(s)),
                None => Err(EngineError::InvalidStatus),
            }
        }
    }

    /// Whether the filter lets an order in this status through.
    pub fn lets_through(&self, status: OrderStatus) -> (r: bool)
        ensures
            r == self.admits(status),
    {
        match self {
            ArchiveFilter::All => true,
            ArchiveFilter::Archived => status.is_terminal(),
            ArchiveFilter::Status(s) => status == *s,
        }
    }
}

/// The predicate "the filter lets the order through".
pub open spec fn passes(filter: ArchiveFilter) -> spec_fn(OrderView) -> bool {
    |o: OrderView| filter.admits(o.status)
}

/// The orders that a filter lets through, in the order of the table.
pub fn archived_orders<'a>(orders: &'a Vec<Order>, filter: ArchiveFilter) -> (r: Vec<&'a Order>)
    ensures
        views(r@) == views(orders@).filter(passes(filter)),
{
    let ghost all = views(orders@);
    let ghost p = passes(filter);
    let mut found: Vec<&Order> = Vec::new();
    let mut i: usize = 0;
    proof {
        reveal(Seq::filter);
        assert(all.take(0).filter(p) =~= Seq::empty());
        assert(views(found@) =~= Seq::empty());
    }
    while i < orders.len()
        invariant
            i <= orders.len(),
            all == views(orders@),
            p == passes(filter),
            views(found@) == all.take(i as int).filter(p),
        decreases orders.len() - i,
    {
        let ghost before = views(found@);
        proof {
            assert(all.take(i as int + 1) =~= all.take(i as int).push(all[i as int]));
            all.take(i as int).lemma_filter_push(all[i as int], p);
            assert(all[i as int] == orders@[i as int]@);
        }
        if filter.lets_through(orders[i].status) {
            found.push(&orders[i]);
            proof {
                assert(views(found@) =~= before.push(all[i as int]));
            }
        }
        i += 1;
    }
    proof {
        assert(all.take(i as int) =~= all);
    }
    found
}

/// The lowercase form of a text.
pub uninterp spec fn lowercased(text: Seq<char>) -> Seq<char>;

/// `str::to_lowercase` of the standard library: the lowercase equivalent
/// of the text, as the Unicode Derived Core Property Lowercase defines it.
/// The contract only gives that result its name.
#[verifier::external_body]
fn to_lowercase(text: &str) -> (r: String)
    ensures
        r@ == lowercased(text@),
{
    text.to_lowercase()
}

/// The pattern that finds a text anywhere in a field, whatever its case:
/// the lowercase text between two percent signs.
pub open spec fn contains_pattern(query: Seq<char>) -> Seq<char> {
    seq!['%'] + lowercased(query) + seq!['%']
}

/// Writes the pattern of a case-insensitive substring search.
pub fn like_pattern(query: &str) -> (r: String)
    ensures
        r@ == contains_pattern(query@),
{
    let lower = to_lowercase(query);
    let mut pattern = "%".to_owned();
    pattern.append(lower.as_str());
    pattern.append("%");
    proof {
        reveal_strlit("%");
        assert("%"@ =~= seq!['%']);
        assert(pattern@ =~= contains_pattern(query@));
    }
    pattern
}

/// What a listing of the event log is restricted to.
#[derive(Clone, Debug)]
pub struct LogFilter {
    /// The one event type to show, if the listing is restricted to one.
    pub event_type: Option<String>,
    /// The pattern that the description must match, if a text is searched.
    pub description_like: Option<String>,
}

/// The choice that stands for "every event type".
pub open spec fn every_event() -> Seq<char> {
    "Все события"@
}

/// The event type that a request restricts the log to: none where the
/// request names none or asks for every event.
pub open spec fn wanted_event(filter: Option<Seq<char>>) -> Option<Seq<char>> {
    match filter {
        Some(f) => if f == every_event() {
            None
        } else {
            Some(f)
        },
        None => None,
    }
}

/// The pattern that a request searches the descriptions for: none where
/// the request has no search text or an empty one.
pub open spec fn wanted_text(search: Option<Seq<char>>) -> Option<Seq<char>> {
    match search {
        Some(s) => if s.len() == 0 {
            None
        } else {
            Some(contains_pattern(s))
        },
        None => None,
    }
}

impl LogFilter {
    /// Builds the filter of a log listing from the two fields of a request.
    pub fn from_request(filter: Option<&str>, search: Option<&str>) -> (r: LogFilter)
        ensures
            crate::records::opt_chars(r.event_type) == wanted_event(
                match filter {
                    Some(f) => Some(f@),
                    None => None,
                },
            ),
            crate::records::opt_chars(r.description_like) == wanted_text(
                match search {
                    Some(s) => Some(s@),
                    None => None,
                },
            ),
    {
        let event_type = match filter {
            Some(f) => if str_eq(f, "Все события") {
                None
            } else {
                Some(f.to_owned())
            },
            None => None,
        };
        let description_like = match search {
            Some(s) => if s.is_empty() {
                None
            } else {
                Some(like_pattern(s))
            },
            None => None,
        };
        LogFilter { event_type, description_like }
    }
}

} // verus!
