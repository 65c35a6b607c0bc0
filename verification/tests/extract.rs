use hitsz_info_fetcher::dom::Element;
use hitsz_info_fetcher::extract::{
    collect_links, extract_bracket_tag, extract_notice_items, extract_page_snapshot,
    find_next_page_url, next_page_href, notice_from_row, page_title, split_span, Anchor, NoticeRow,
};
use hitsz_info_fetcher::page_url::{host_of, PageUrl};

fn element(text: &str, href: Option<&str>) -> Element {
    Element {
        text: text.to_string(),
        id: None,
        name: None,
        value: None,
        href: href.map(str::to_owned),
        action: None,
    }
}

fn row(text: &str, span: Option<&str>, link: Option<(&str, Option<&str>)>) -> NoticeRow {
    NoticeRow {
        text: text.to_string(),
        span: span.map(str::to_owned),
        anchor: link.map(|(t, u)| Anchor { text: t.to_string(), target: u.map(str::to_owned) }),
    }
}

#[test]
fn extracts_title_and_absolute_links() {
    let url = PageUrl::parse("https://info.hitsz.edu.cn/list").expect("valid url");
    let html = r#"
            <html>
              <head><title>通知公告</title></head>
              <body>
                <a href="/item/1"> 第一条通知 </a>
                <a href="https://example.com/b">第二条</a>
              </body>
            </html>
        "#;

    let snapshot = extract_page_snapshot(&url, html);
    assert_eq!(snapshot.title.as_deref(), Some("通知公告"));
    assert_eq!(snapshot.links.len(), 2);
    assert_eq!(snapshot.links[0].url, "https://info.hitsz.edu.cn/item/1");
    assert_eq!(snapshot.links[0].title, "第一条通知");
}

#[test]
fn extracts_notice_items_from_list_page() {
    let url = PageUrl::parse("http://info.hitsz.edu.cn/list.jsp?wbtreeid=1053").expect("valid url");
    let html = r#"
            <html><body>
            <div class="Newslist"><ul>
              <li><span>人力资源处&nbsp;&nbsp;&nbsp;2026-06-16</span>【工作通知】<a href="content.jsp?wbnewsid=9219">关于启动项目通知</a></li>
              <li><span>教务部&nbsp;&nbsp;&nbsp;2026-06-15</span>【公告公示】<a href="content.jsp?wbnewsid=9218">考试安排通知</a></li>
            </ul></div>
            </body></html>
        "#;

    let notices = extract_notice_items(html, &url);
    assert_eq!(notices.len(), 2);
    assert_eq!(notices[0].title, "关于启动项目通知");
    assert_eq!(notices[0].date, "2026-06-16");
    assert_eq!(notices[0].department, "人力资源处");
    assert_eq!(notices[0].category, "【工作通知】");
    assert!(notices[0].url.contains("wbnewsid=9219"));
    assert_eq!(notices[1].date, "2026-06-15");
}

#[test]
fn finds_next_page_url() {
    let url = PageUrl::parse("http://info.hitsz.edu.cn/list.jsp?wbtreeid=1053").expect("valid url");
    let html = r#"<a href="?totalpage=295&PAGENUM=2&wbtreeid=1053">下页</a>"#;

    let next = find_next_page_url(html, &url);
    assert!(next.is_some());
    assert!(next.unwrap().as_str().contains("PAGENUM=2"));
}

#[test]
fn splits_span_correctly() {
    assert_eq!(split_span("人力资源处   2026-06-16"), ("人力资源处".into(), "2026-06-16".into()));
    assert_eq!(split_span("教务部2026-06-15"), ("教务部".into(), "2026-06-15".into()));
    assert_eq!(split_span("no date here"), ("no date here".into(), "".into()));
}

#[test]
fn span_edge_cases() {
    assert_eq!(split_span(""), ("".into(), "".into()));
    assert_eq!(split_span("  2026-06-16\u{3000}"), ("".into(), "2026-06-16".into()));
    assert_eq!(split_span("教务部 2026/06/15"), ("教务部 2026/06/15".into(), "".into()));
    assert_eq!(split_span("教务部 2026-0615x"), ("教务部 2026-0615x".into(), "".into()));
    assert_eq!(split_span("教务部 1-2-345678"), ("教务部 1-2-345678".into(), "".into()));
    assert_eq!(split_span("教务部 20260-6-15"), ("教务部 20260-6-15".into(), "".into()));
    assert_eq!(split_span("教务部-026-06-15"), ("教务部-026-06-15".into(), "".into()));
    assert_eq!(split_span("短一二三四五六七"), ("短一二三四五六七".into(), "".into()));
}

#[test]
fn bracket_tag_is_found_between_span_and_title() {
    let full = "教务部 2026-06-15【公告公示】考试安排";
    assert_eq!(extract_bracket_tag(full, "教务部 2026-06-15", "考试安排"), "【公告公示】");
    assert_eq!(extract_bracket_tag("教务部【公告 】 考试", "教务部", "考试"), "【公告 】");
    assert_eq!(extract_bracket_tag("教务部考试", "教务部", "考试"), "");
    assert_eq!(extract_bracket_tag("教务部【公告", "教务部", "考试"), "【公告");
    assert_eq!(extract_bracket_tag("a】b【c】d【e】", "", "x"), "【c】");
    assert_eq!(extract_bracket_tag("【甲】标题【乙】", "部门", "标题【乙】"), "【甲】");
}

#[test]
fn row_laid_out_as_the_portal_does_reads_back() {
    let r = row(
        "教务部  2026-06-15【公告公示】 考试安排",
        Some("教务部  2026-06-15"),
        Some((" 考试安排", Some("http://info.hitsz.edu.cn/c"))),
    );
    let notice = notice_from_row(&r).expect("a notice");
    assert_eq!(notice.title, "考试安排");
    assert_eq!(notice.url, "http://info.hitsz.edu.cn/c");
    assert_eq!(notice.date, "2026-06-15");
    assert_eq!(notice.department, "教务部");
    assert_eq!(notice.category, "【公告公示】");
}

#[test]
fn row_without_a_department_reads_back() {
    let r = row("  2026-06-15【公告】通知", Some("  2026-06-15"), Some(("通知", Some("http://a/"))));
    let notice = notice_from_row(&r).expect("a notice");
    assert_eq!(notice.department, "");
    assert_eq!(notice.date, "2026-06-15");
    assert_eq!(notice.category, "【公告】");
}

#[test]
fn rows_without_date_title_or_target_are_no_notices() {
    let url = Some("http://info.hitsz.edu.cn/c");
    assert!(notice_from_row(&row("x", None, Some(("t", url)))).is_none());
    assert!(notice_from_row(&row("x", Some("教务部"), Some(("t", url)))).is_none());
    assert!(notice_from_row(&row("x", Some("2026-06-15"), None)).is_none());
    assert!(notice_from_row(&row("x", Some("2026-06-15"), Some(("t", None)))).is_none());
    assert!(notice_from_row(&row("x", Some("2026-06-15"), Some((" \n", url)))).is_none());
    assert!(notice_from_row(&row("x", Some("2026-06-15"), Some(("t", url)))).is_some());
}

#[test]
fn list_rows_outside_the_list_do_not_count() {
    let url = PageUrl::parse("http://info.hitsz.edu.cn/list.jsp").expect("valid url");
    let html = r#"<ul><li><span>教务部 2026-06-15</span><a href="c">通知</a></li></ul>"#;
    assert!(extract_notice_items(html, &url).is_empty());
}

#[test]
fn the_first_span_and_link_of_a_row_count() {
    let url = PageUrl::parse("http://info.hitsz.edu.cn/list.jsp").expect("valid url");
    let html = r#"<div class="Newslist"><ul><li><span>教务部 2026-06-15</span><span>x 2020-01-01</span>
        <a href="one">第一</a><a href="two">第二</a></li></ul></div>"#;
    let notices = extract_notice_items(html, &url);
    assert_eq!(notices.len(), 1);
    assert_eq!(notices[0].date, "2026-06-15");
    assert_eq!(notices[0].title, "第一");
    assert_eq!(notices[0].url, "http://info.hitsz.edu.cn/one");
    assert_eq!(notices[0].category, "");
}

#[test]
fn snapshot_keeps_url_and_page() {
    let url = PageUrl::parse("https://info.hitsz.edu.cn").expect("valid url");
    let html = "<title>  </title><a href='x'>  </a><a href='http://['>bad</a><a>none</a><a href='y'>a\n b</a>";
    let snapshot = extract_page_snapshot(&url, html);
    assert_eq!(snapshot.final_url, "https://info.hitsz.edu.cn/");
    assert_eq!(snapshot.title, None);
    assert_eq!(snapshot.html, html);
    assert_eq!(snapshot.links.len(), 1);
    assert_eq!(snapshot.links[0].title, "a b");
    assert_eq!(snapshot.links[0].url, "https://info.hitsz.edu.cn/y");
}

#[test]
fn titles_are_trimmed_and_the_first_counts() {
    assert_eq!(page_title(&vec![]), None);
    assert_eq!(page_title(&vec![element(" 一 ", None), element("二", None)]).as_deref(), Some("一"));
    assert_eq!(page_title(&vec![element(" ", None), element("二", None)]), None);
}

#[test]
fn links_need_text_and_target() {
    let anchors = vec![
        Anchor { text: " a  b ".to_string(), target: Some("u1".to_string()) },
        Anchor { text: "\t".to_string(), target: Some("u2".to_string()) },
        Anchor { text: "c".to_string(), target: None },
    ];
    let links = collect_links(&anchors);
    assert_eq!(links.len(), 1);
    assert_eq!(links[0].title, "a b");
    assert_eq!(links[0].url, "u1");
}

#[test]
fn first_labelled_link_leads_to_the_next_page() {
    let anchors = vec![
        element("首页", Some("first")),
        element("下一页 >", Some("second")),
        element("下页", Some("third")),
    ];
    assert_eq!(next_page_href(&anchors).as_deref(), Some("second"));
    assert_eq!(next_page_href(&vec![element("尾页", Some("last"))]), None);
    assert_eq!(next_page_href(&vec![element("下页", None), element("下页", Some("x"))]), None);
}

#[test]
fn urls_are_parsed_joined_and_read() {
    assert!(PageUrl::parse("no url").is_none());
    let url = PageUrl::parse("HTTP://Info.HITSZ.edu.cn/a/b").expect("valid url");
    assert_eq!(url.as_str(), "http://info.hitsz.edu.cn/a/b");
    assert_eq!(url.host_str().as_deref(), Some("info.hitsz.edu.cn"));
    assert_eq!(url.join("../c?d=1").expect("joined").as_str(), "http://info.hitsz.edu.cn/c?d=1");
    assert!(url.join("http://[").is_none());
    assert_eq!(url.clone().as_str(), url.as_str());
    assert_eq!(host_of("mailto:someone"), None);
    assert_eq!(host_of("no url"), None);
    assert_eq!(host_of("https://ids.hit.edu.cn/x").as_deref(), Some("ids.hit.edu.cn"));
}
