use client::renderer::shader_source::preprocess_sources;

#[test]
fn regions_split_after_the_comments() {
    let src = "/* header */\n#[vertex]\nV\n#[fragment]\nF\n";
    let (v, f) = preprocess_sources(src).unwrap();
    assert_eq!(v, "\nV\n");
    assert_eq!(f, "\nF\n");
}

#[test]
fn a_blank_line_before_a_marker_belongs_to_the_marker() {
    let src = "#[vertex]\nV\n\n#[fragment]\nF";
    let (v, f) = preprocess_sources(src).unwrap();
    assert_eq!(v, "\nV\n");
    assert_eq!(f, "\nF");
}

#[test]
fn every_comment_is_dropped_and_later_regions_win() {
    let src = "#[vertex]\n/*a*/A\n#[vertex]\nB/*b*/\n#[fragment]\nF\n#[other]\nO";
    let (v, f) = preprocess_sources(src).unwrap();
    assert_eq!(v, "\nB\n");
    assert_eq!(f, "\nF\n");
}

#[test]
fn comments_between_regions_are_dropped() {
    let src = "/*x*/#[vertex]\nA/*y*/\n#[fragment]\nB";
    assert_eq!(preprocess_sources(src), Ok(("\nA\n".to_string(), "\nB".to_string())));
}

#[test]
fn an_unclosed_comment_stays() {
    let src = "#[vertex]\nA/*/\n#[fragment]\nB";
    assert_eq!(preprocess_sources(src), Ok(("\nA/*/\n".to_string(), "\nB".to_string())));
}

#[test]
fn a_marker_must_start_a_line() {
    let src = "x #[vertex]\nV\n#[fragment]\nF";
    assert_eq!(preprocess_sources(src), Err("did not find vertex region in shader".to_string()));
}

#[test]
fn missing_regions_are_reported() {
    assert_eq!(preprocess_sources("#[fragment]\nF"), Err("did not find vertex region in shader".to_string()));
    assert_eq!(preprocess_sources("#[vertex]\nV"), Err("did not find fragment region in shader".to_string()));
    assert_eq!(preprocess_sources("#[]\n#[vertex ]"), Err("did not find vertex region in shader".to_string()));
}

#[test]
fn region_names_may_hold_letters_beyond_ascii() {
    let src = "#[vertex]\nV\n#[\u{e9}t\u{e9}]\nX\n#[fragment]\nF";
    assert_eq!(preprocess_sources(src), Ok(("\nV\n".to_string(), "\nF".to_string())));
}
