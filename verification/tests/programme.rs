use kronox::pattern::{remove_html_tags, resurser_param};
use kronox::programme::{parse_programme_link, parse_programmes, remove_duplicate_words};

#[test]
fn ignores_navigation_links_without_target_blank() {
    let html = r#"
      <a href="avanceratschema.jsp">Avancerad sök</a>
      <a href="ao.jsp">Schemaguide A-Ö</a>
      <a target="_blank" href="?resurser=p.REAL">Data, Datateknik Datateknik</a>
    "#;
    let programmes = parse_programmes(html);
    assert_eq!(programmes.len(), 1);
    assert_eq!(programmes[0].id, "p.REAL");
    assert_eq!(programmes[0].title, "Data");
    assert_eq!(programmes[0].subtitle, "Datateknik");
}

#[test]
fn returns_all_results_for_a_two_hit_query() {
    let html = r#"
      <a href="avanceratschema.jsp">Avancerad sök</a>
      <a target="_blank" href="?resurser=s.SVEMAR">SVEMAR, Margaretha Svensson</a>
      <a target="_blank" href="?resurser=s.VEM">VEM, Braco Veletanlic</a>
    "#;
    let programmes = parse_programmes(html);
    assert_eq!(programmes.len(), 2);
    assert_eq!(programmes[0].id, "s.SVEMAR");
    assert_eq!(programmes[1].id, "s.VEM");
}

#[test]
fn skips_results_without_id_or_comma() {
    let html = r#"
      <a target="_blank" href="page.jsp">No id, here</a>
      <a target="_blank" href="?resurser=p.X">No comma</a>
      <a target="_blank">No href, at all</a>
      <a target="_blank" href="?resurser=p.OK"> OK ,  Nested <b>text</b> text </a>
    "#;
    let programmes = parse_programmes(html);
    assert_eq!(programmes.len(), 1);
    assert_eq!(programmes[0].id, "p.OK");
    assert_eq!(programmes[0].title, "OK");
    assert_eq!(programmes[0].subtitle, "Nested text");
}

#[test]
fn page_without_results_gives_nothing() {
    assert!(parse_programmes("").is_empty());
    assert!(parse_programmes("<p>Inga träffar</p>").is_empty());
}

#[test]
fn reads_a_single_link() {
    let p = parse_programme_link(Some("x.jsp?a=1&resurser=k.TB1"), "  Title ,  Sub  Sub  Part ").unwrap();
    assert_eq!(p.id, "k.TB1");
    assert_eq!(p.title, "Title");
    assert_eq!(p.subtitle, "Sub Part");
    assert!(parse_programme_link(None, "a, b").is_none());
    assert!(parse_programme_link(Some("?resurser=x"), "no comma").is_none());
    let first_comma = parse_programme_link(Some("?resurser=x"), "a, b, c").unwrap();
    assert_eq!(first_comma.title, "a");
    assert_eq!(first_comma.subtitle, "b, c");
}

#[test]
fn duplicate_words_keep_their_first_occurrence() {
    assert_eq!(remove_duplicate_words("Datateknik Datateknik"), "Datateknik");
    assert_eq!(remove_duplicate_words("  a b\ta  c b "), "a b c");
    assert_eq!(remove_duplicate_words(""), "");
}

#[test]
fn strips_html_tags() {
    assert_eq!(remove_html_tags("Lecture <b>X</b>"), "Lecture X");
    assert_eq!(remove_html_tags("a < b"), "a < b");
    assert_eq!(remove_html_tags("<<i>>"), ">");
    assert_eq!(remove_html_tags("no tags"), "no tags");
}

#[test]
fn takes_the_resurser_parameter_to_the_end() {
    assert_eq!(resurser_param("?resurser=p.REAL"), Some("p.REAL".to_owned()));
    assert_eq!(resurser_param("?a=1&resurser=p.A,p.B"), Some("p.A,p.B".to_owned()));
    assert_eq!(resurser_param("?resurser="), Some(String::new()));
    assert_eq!(resurser_param("avanceratschema.jsp"), None);
}
