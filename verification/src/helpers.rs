use vstd::prelude::*;
use vstd::string::StringExecFns;

verus! {

/// Stop after this many iterations.
#[derive(Clone)]
pub struct Iterations(pub usize);

/// The midpoint of an interval, as an estimate of where the minimum lies.
#[derive(Clone)]
pub struct Average;

/// The characters of `n` in decimal, without leading zeros.
pub open spec fn decimal(n: nat) -> Seq<char>
    decreases n,
{
    if n < 10 {
        seq![digit_char(n)]
    } else {
        decimal(n / 10).push(digit_char(n % 10))
    }
}

/// The decimal digit for `d`, for `d` below ten.
pub open spec fn digit_char(d: nat) -> char {
    ((d + 48) as u8) as char
}

/// The decimal digit for `d` below ten.
fn digit_str(d: usize) -> (s: &'static str)
    requires
        d < 10,
    ensures
        s@ == seq![digit_char(d as nat)],
{
    proof {
        reveal_strlit("0");
        reveal_strlit("1");
        reveal_strlit("2");
        reveal_strlit("3");
        reveal_strlit("4");
        reveal_strlit("5");
        reveal_strlit("6");
        reveal_strlit("7");
        reveal_strlit("8");
        reveal_strlit("9");
    }
    let s = match d {
        0 => "0",
        1 => "1",
        2 => "2",
        3 => "3",
        4 => "4",
        5 => "5",
        6 => "6",
        7 => "7",
        8 => "8",
        _ => "9",
    };
    assert(s@ =~= seq![digit_char(d as nat)]);
    s
}

/// `n` written in decimal.
pub fn decimal_string(n: usize) -> (s: String)
    ensures
        s@ == decimal(n as nat),
    decreases n,
{
    if n < 10 {
        let mut s = String::new();
        s.append(digit_str(n));
        assert(s@ =~= decimal(n as nat));
        s
    } else {
        let mut s = decimal_string(n / 10);
        s.append(digit_str(n % 10));
        s
    }
}

/// The start of the dashboard page, up to its title.
pub const PAGE_TOP: &'static str = r#"<!DOCTYPE html>
<html lang="en">
<head>
    <meta charset="UTF-8">
    <meta name="viewport" content="width=device-width, initial-scale=1.0">
    <title>"#;

/// The dashboard page from its title to its heading.
pub const PAGE_TITLE_TO_HEADING: &'static str = r#"</title>
    <script src="https://cdn.tailwindcss.com"></script>
    <script src="https://cdn.plot.ly/plotly-2.24.1.min.js"></script>
    <link href="https://fonts.googleapis.com/css2?family=Outfit:wght@300;400;600;800&family=JetBrains+Mono:wght@400;700&display=swap" rel="stylesheet">
    <style>
        body {
            font-family: 'Outfit', sans-serif;
            background-color: #0f172a;
            color: #f8fafc;
        }
        .plot-container {
            background: rgba(30, 41, 59, 0.7);
            backdrop-filter: blur(12px);
            border: 1px solid rgba(255, 255, 255, 0.05);
            border-radius: 16px;
            box-shadow: 0 10px 30px -10px rgba(0, 0, 0, 0.5);
            transition: all 0.3s ease;
        }
        .plot-container:hover {
            border-color: rgba(99, 102, 241, 0.4);
            box-shadow: 0 15px 35px -5px rgba(99, 102, 241, 0.15);
        }
    </style>
</head>
<body class="min-h-screen p-6 md:p-12">
    <div class="max-w-7xl mx-auto">
        <header class="mb-12 text-center md:text-left border-b border-slate-800 pb-8">
            <h1 class="text-4xl md:text-5xl font-extrabold bg-gradient-to-r from-indigo-400 via-purple-400 to-pink-400 bg-clip-text text-transparent mb-2">"#;

/// The dashboard page from its heading to its first plot.
pub const PAGE_HEADING_TO_PLOTS: &'static str = r#"</h1>
            <p class="text-slate-400 text-lg">Interactive Visualization Dashboard</p>
        </header>

        <div class="grid grid-cols-1 lg:grid-cols-2 gap-8">
"#;

/// The start of a plot panel, up to its title.
pub const PLOT_START: &'static str = r#"
            <div class="plot-container p-6 flex flex-col">
                <h2 class="text-xl font-bold mb-4 text-indigo-300 flex items-center gap-2">
                    <span class="inline-block w-2.5 h-2.5 rounded-full bg-indigo-500"></span>
                    "#;

/// A plot panel from its title to the number of its element.
pub const PLOT_TITLE_TO_ID: &'static str = r#"
                </h2>
                <div id="plot-"#;

/// A plot panel from the number of its element to its specification.
pub const PLOT_ID_TO_SPEC: &'static str = r#"" class="w-full h-[500px]"></div>
                <script>
                    (function() {
                        let spec = "#;

/// A plot panel from its specification to the number of its element.
pub const PLOT_SPEC_TO_ID: &'static str = r#";
                        spec.layout = spec.layout || {};
                        spec.layout.paper_bgcolor = 'rgba(0,0,0,0)';
                        spec.layout.plot_bgcolor = 'rgba(0,0,0,0)';
                        spec.layout.font = spec.layout.font || {};
                        spec.layout.font.color = '#cbd5e1';
                        spec.layout.font.family = 'Outfit, sans-serif';
                        if (spec.layout.scene) {
                            spec.layout.scene.xaxis = spec.layout.scene.xaxis || {};
                            spec.layout.scene.xaxis.gridcolor = '#334155';
                            spec.layout.scene.yaxis = spec.layout.scene.yaxis || {};
                            spec.layout.scene.yaxis.gridcolor = '#334155';
                            spec.layout.scene.zaxis = spec.layout.scene.zaxis || {};
                            spec.layout.scene.zaxis.gridcolor = '#334155';
                        }
                        Plotly.newPlot('plot-"#;

/// The end of a plot panel.
pub const PLOT_END: &'static str = r#"', spec.data, spec.layout, {responsive: true});
                    })();
                </script>
            </div>
"#;

/// The end of the dashboard page.
pub const PAGE_BOTTOM: &'static str = r#"
        </div>
        
        <footer class="mt-16 text-center text-slate-500 text-sm border-t border-slate-900 pt-8">
            <p>Generated by Antigravity Optimization Library</p>
        </footer>
    </div>
</body>
</html>
"#;

/// The panel of one plot on the dashboard: its title, the element numbered
/// `index` that holds it, and its Plotly specification in JSON.
pub open spec fn plot_panel(title: Seq<char>, index: nat, spec: Seq<char>) -> Seq<char> {
    PLOT_START@ + title + PLOT_TITLE_TO_ID@ + decimal(index) + PLOT_ID_TO_SPEC@ + spec + PLOT_SPEC_TO_ID@ + decimal(index) + PLOT_END@
}

/// The panels of the first `count` plots, each a title and a JSON
/// specification, numbered from zero.
pub open spec fn plot_panels(plots: Seq<(Seq<char>, Seq<char>)>, count: nat) -> Seq<char>
    decreases count,
{
    if count == 0 {
        Seq::empty()
    } else {
        plot_panels(plots, (count - 1) as nat) + plot_panel(plots[count - 1].0, (count - 1) as nat, plots[count - 1].1)
    }
}

/// The dashboard page titled `title` showing `plots`, each a title and a
/// JSON specification.
pub open spec fn dashboard_page(title: Seq<char>, plots: Seq<(Seq<char>, Seq<char>)>) -> Seq<char> {
    PAGE_TOP@ + title + PAGE_TITLE_TO_HEADING@ + title + PAGE_HEADING_TO_PLOTS@ + plot_panels(plots, plots.len()) + PAGE_BOTTOM@
}

/// The titles and specifications of `plots`, as text.
pub open spec fn plots_text(plots: Seq<(&str, &str)>) -> Seq<(Seq<char>, Seq<char>)> {
    plots.map_values(|p: (&str, &str)| (p.0@, p.1@))
}

/// The HTML page of a dashboard titled `title` that shows `plots`, each given
/// by its title and its Plotly specification in JSON.
pub fn dashboard_html(title: &str, plots: &[(&str, &str)]) -> (page: String)
    ensures
        page@ == dashboard_page(title@, plots_text(plots@)),
{
    let ghost text = plots_text(plots@);
    let mut page = String::new();
    page.append(PAGE_TOP);
    page.append(title);
    page.append(PAGE_TITLE_TO_HEADING);
    page.append(title);
    page.append(PAGE_HEADING_TO_PLOTS);
    let ghost top = page@;
    let mut i: usize = 0;
    while i < plots.len()
        invariant
            i <= plots.len(),
            text == plots_text(plots@),
            page@ == top + plot_panels(text, i as nat),
        decreases plots.len() - i,
    {
        let (plot_title, plot_json) = plots[i];
        let number = decimal_string(i);
        page.append(PLOT_START);
        page.append(plot_title);
        page.append(PLOT_TITLE_TO_ID);
        page.append(number.as_str());
        page.append(PLOT_ID_TO_SPEC);
        page.append(plot_json);
        page.append(PLOT_SPEC_TO_ID);
        page.append(number.as_str());
        page.append(PLOT_END);
        assert(text[i as int] == (plot_title@, plot_json@));
        assert(page@ =~= top + plot_panels(text, (i + 1) as nat));
        i += 1;
    }
    page.append(PAGE_BOTTOM);
    assert(page@ =~= dashboard_page(title@, text));
    page
}

}
