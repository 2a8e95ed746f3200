use ec2_search::pager::{Page, Pager};

fn drain(pages: Vec<(Vec<u32>, Option<&str>)>) -> (Vec<u32>, Vec<Option<String>>) {
    let mut pager = Pager::new();
    let mut requests = vec![];
    let mut pages = pages.into_iter();
    while let Some(token) = pager.next_request() {
        requests.push(token);
        let (items, next) = pages.next().expect("asked for a page past the last");
        pager.absorb(Page {
            items,
            next_token: next.map(|s| s.to_string()),
        });
    }
    (pager.into_items(), requests)
}

#[test]
fn drains_n_pages_of_m_items_in_order() {
    let (n, m) = (4u32, 3u32);
    let pages: Vec<(Vec<u32>, Option<&str>)> = (0..n)
        .map(|p| {
            let items = (0..m).map(|j| p * 10 + j).collect();
            let token = if p + 1 < n { Some("more") } else { None };
            (items, token)
        })
        .collect();
    let (items, requests) = drain(pages);
    assert_eq!(items.len(), (n * m) as usize);
    assert_eq!(items, vec![0, 1, 2, 10, 11, 12, 20, 21, 22, 30, 31, 32]);
    assert_eq!(requests.len(), n as usize);
    assert_eq!(requests[0], None);
    assert_eq!(requests[1], Some("more".to_string()));
}

#[test]
fn empty_page_with_token_does_not_end_the_drain() {
    let pages = vec![(vec![], Some("t1")), (vec![5, 5], Some("t2")), (vec![], None)];
    let (items, requests) = drain(pages);
    assert_eq!(items, vec![5, 5]);
    assert_eq!(
        requests,
        vec![None, Some("t1".to_string()), Some("t2".to_string())]
    );
}
