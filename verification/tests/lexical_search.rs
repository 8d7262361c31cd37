use std::cell::RefCell;
use std::rc::Rc;
use std::error::Error;

use mdsearch::collection::CollectionName;
use mdsearch::errors::{SearchError, SearchStoreError};
use mdsearch::passage::PassageKind;
use mdsearch::ports::SearchScope;
use mdsearch::search::{LexicalSearchStore, SearchLexical, SearchResult, SearchResultSet};

#[derive(Default)]
struct InMemorySearchStore {
    result_set: Option<SearchResultSet>,
    fail_not_found: bool,
    seen: Rc<RefCell<Vec<(String, usize, Option<String>)>>>,
}

impl InMemorySearchStore {
    fn set_results(&mut self, set: SearchResultSet) {
        self.result_set = Some(set);
    }
}

impl LexicalSearchStore for InMemorySearchStore {
    fn search(
        &self,
        query: &str,
        limit: usize,
        scope: SearchScope<'_>,
    ) -> Result<SearchResultSet, SearchStoreError> {
        let scoped = match scope {
            SearchScope::All => None,
            SearchScope::Collection(name) => Some(name.display_name().to_owned()),
        };
        self.seen.borrow_mut().push((query.to_owned(), limit, scoped));
        if self.fail_not_found {
            return Err(SearchStoreError::CollectionNotFound);
        }
        self.result_set
            .clone()
            .ok_or_else(|| SearchStoreError::Storage("no results".to_owned()))
    }
}

fn collection(name: &str) -> Result<CollectionName, Box<dyn Error>> {
    CollectionName::try_from(name).map_err(|e| format!("{e:?}").into())
}

fn result(path: &str, kind: PassageKind, text: &str, score: f64) -> Result<SearchResult, Box<dyn Error>> {
    Ok(SearchResult::new(
        collection("Notes")?,
        path.to_owned(),
        kind,
        text.to_owned(),
        score.to_bits(),
    ))
}

#[test]
fn returns_ranked_results_for_the_all_scope() -> Result<(), Box<dyn Error>> {
    let mut store = InMemorySearchStore::default();
    store.set_results(SearchResultSet::new(
        vec![
            result("/a.md", PassageKind::Body, "borrowing rules", 6.0)?,
            result("/b.md", PassageKind::Body, "borrowing quirks", 3.0)?,
        ],
        2,
    ));
    let use_case = SearchLexical::new(store);

    let set = use_case.execute("borrowing", 10, SearchScope::All).map_err(|e| format!("{e:?}"))?;

    assert_eq!(set.total(), 2);
    let results = set.results();
    assert_eq!(results.len(), 2);
    assert_eq!(results.first().map(SearchResult::text), Some("borrowing rules"));
    assert_eq!(results.get(1).map(SearchResult::text), Some("borrowing quirks"));

    Ok(())
}

#[test]
fn forwards_a_collection_scope() -> Result<(), Box<dyn Error>> {
    let mut store = InMemorySearchStore::default();
    store.set_results(SearchResultSet::new(
        vec![result("/a.md", PassageKind::Body, "borrowing", 1.0)?],
        1,
    ));
    let use_case = SearchLexical::new(store);

    let set = use_case
        .execute("borrowing", 10, SearchScope::Collection(&collection("Notes")?))
        .map_err(|e| format!("{e:?}"))?;

    assert_eq!(set.total(), 1);

    Ok(())
}

#[test]
fn returns_an_empty_result_set_for_no_matches() -> Result<(), Box<dyn Error>> {
    let mut store = InMemorySearchStore::default();
    store.set_results(SearchResultSet::new(Vec::new(), 0));
    let use_case = SearchLexical::new(store);

    let set = use_case.execute("zzznotaword", 10, SearchScope::All).map_err(|e| format!("{e:?}"))?;

    assert!(set.results().is_empty());
    assert_eq!(set.total(), 0);

    Ok(())
}

#[test]
fn lexical_search_rejects_an_empty_query() {
    let store = InMemorySearchStore::default();
    let use_case = SearchLexical::new(store);

    assert!(matches!(
        use_case.execute("   ", 10, SearchScope::All),
        Err(SearchError::EmptyQuery)
    ));
}

#[test]
fn propagates_store_errors() -> Result<(), Box<dyn Error>> {
    let store = InMemorySearchStore {
        fail_not_found: true,
        ..InMemorySearchStore::default()
    };
    let use_case = SearchLexical::new(store);
    let notes = collection("Notes")?;

    assert!(matches!(
        use_case.execute("borrowing", 10, SearchScope::Collection(&notes)),
        Err(SearchError::Store(SearchStoreError::CollectionNotFound))
    ));

    Ok(())
}

#[test]
fn the_store_receives_the_quoted_expression_limit_and_scope() -> Result<(), Box<dyn Error>> {
    let mut store = InMemorySearchStore::default();
    store.set_results(SearchResultSet::new(Vec::new(), 0));
    let seen = Rc::clone(&store.seen);
    let use_case = SearchLexical::new(store);
    let notes = collection("Notes")?;

    use_case
        .execute("  borrow \"checker\" ", 7, SearchScope::Collection(&notes))
        .map_err(|e| format!("{e:?}"))?;

    assert_eq!(
        *seen.borrow(),
        vec![("\"borrow\" AND \"\"\"checker\"\"\"".to_owned(), 7, Some("Notes".to_owned()))]
    );
    Ok(())
}

#[test]
fn a_blank_query_never_reaches_the_store() {
    let store = InMemorySearchStore::default();
    let seen = Rc::clone(&store.seen);
    let use_case = SearchLexical::new(store);
    assert!(use_case.execute("\t\n", 3, SearchScope::All).is_err());
    assert!(seen.borrow().is_empty());
}

#[test]
fn result_records_keep_their_fields() -> Result<(), Box<dyn Error>> {
    let r = result("/x.md", PassageKind::Title, "Title text", 2.5)?;
    assert_eq!(r.collection().display_name(), "Notes");
    assert_eq!(r.path(), "/x.md");
    assert_eq!(r.kind(), PassageKind::Title);
    assert_eq!(r.text(), "Title text");
    assert_eq!(f64::from_bits(r.score()), 2.5);
    Ok(())
}
