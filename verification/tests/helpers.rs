use optimization::helpers::{
    dashboard_html, decimal_string, Average, Iterations, PAGE_BOTTOM, PAGE_HEADING_TO_PLOTS, PAGE_TITLE_TO_HEADING,
    PAGE_TOP, PLOT_END, PLOT_ID_TO_SPEC, PLOT_SPEC_TO_ID, PLOT_START, PLOT_TITLE_TO_ID,
};

#[test]
fn decimal_strings() {
    assert_eq!(decimal_string(0), "0");
    assert_eq!(decimal_string(7), "7");
    assert_eq!(decimal_string(10), "10");
    assert_eq!(decimal_string(4096), "4096");
    assert_eq!(decimal_string(usize::MAX), usize::MAX.to_string());
}

#[test]
fn dashboard_holds_title_and_plots() {
    let page = dashboard_html("Lab", &[("First", "{\"data\":[]}"), ("Second", "{}")]);
    assert!(page.starts_with(PAGE_TOP));
    assert!(page.ends_with(PAGE_BOTTOM));
    assert_eq!(page.matches("<title>Lab</title>").count(), 1);
    assert!(page.contains(">Lab</h1>"));
    assert!(page.contains("id=\"plot-0\""));
    assert!(page.contains("id=\"plot-1\""));
    assert!(page.contains("Plotly.newPlot('plot-1', spec.data"));
    assert!(page.contains("let spec = {\"data\":[]};"));
    assert!(page.find("First").unwrap() < page.find("Second").unwrap());
}

#[test]
fn dashboard_without_plots() {
    let page = dashboard_html("Empty", &[]);
    assert!(!page.contains("plot-container p-6"));
    assert!(page.ends_with("</html>\n"));
    let _ = (Iterations(1).clone(), Average.clone());
}

#[test]
fn dashboard_page_is_the_template_filled_in() {
    let page = dashboard_html("T", &[("A", "{1}"), ("B", "{2}")]);
    let mut expected = String::new();
    for piece in [PAGE_TOP, "T", PAGE_TITLE_TO_HEADING, "T", PAGE_HEADING_TO_PLOTS] {
        expected.push_str(piece);
    }
    for (i, (title, spec)) in [("A", "{1}"), ("B", "{2}")].iter().enumerate() {
        let n = i.to_string();
        for piece in [PLOT_START, title, PLOT_TITLE_TO_ID, &n, PLOT_ID_TO_SPEC, spec, PLOT_SPEC_TO_ID, &n, PLOT_END] {
            expected.push_str(piece);
        }
    }
    expected.push_str(PAGE_BOTTOM);
    assert_eq!(page, expected);
}
