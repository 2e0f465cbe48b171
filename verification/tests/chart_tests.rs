//! Tests of the whole transform and of its components, driven through the
//! library's public functions.

use mdbook_chart::extract;
use mdbook_chart::gen;
use mdbook_chart::gen_html;
use mdbook_chart::Chart;
use regex::Regex;

#[test]
fn test_chart_gen() {

        let content_raw = r###"
```chart
{
    "data": {
    "type": "foo",
        "columns": [
            ["data1", 30, 200, 100, 400, 150, 250],
            ["data2", 50, 20, 10, 40, 15, 25]
        ],
        "axes": {
            "data2": "y2"
        }
    },
    "axis": {
        "y2": {
            "show": true
        }
    }
}
```

```chart
{
    "data": {
        "type": "bar",
        "columns": [
            ["data1", 30, 200, 100, 400, 150, 250],
            ["data2", 50, 20, 10, 40, 15, 25]
        ],
        "axes": {
            "data2": "y2"
        }
    },
    "axis": {
        "y2": {
            "show": true
        }
    }
}
```

{% chart %}
{
    "data": {
        "type": "foo",
        "columns": [
            ["data1", 30, 200, 100, 400, 150, 250],
        ["data2", 50, 20, 10, 40, 15, 25]
        ],
        "axes": {
            "data2": "y2"
        }
    },
    "axis": {
        "y2": {
            "show": true
        }
    }
}
{% endchart %}

{% chart %}
{
    "data": {
        "type": "bar",
        "columns": [
            ["data1", 30, 200, 100, 400, 150, 250],
        ["data2", 50, 20, 10, 40, 15, 25]
        ],
        "axes": {
            "data2": "y2"
        }
    },
    "axis": {
        "y2": {
            "show": true
        }
    }
}
{% endchart %}
        "###;

        let content_html_target = r###"
<div>
<div id="chart-bbc841c7-369e-462e-9132-08f6cd78cfe0"></div>

<link rel="stylesheet" href="/c3.min.css">
<script src="/d3.min.js"></script>
<script src="/c3.min.js"></script>

<script>
c3.generate(
{"bindto":"#chart-bbc841c7-369e-462e-9132-08f6cd78cfe0",
    "data": {
    "type": "foo",
        "columns": [
            ["data1", 30, 200, 100, 400, 150, 250],
            ["data2", 50, 20, 10, 40, 15, 25]
        ],
        "axes": {
            "data2": "y2"
        }
    },
    "axis": {
        "y2": {
            "show": true
        }
    }
}
);
</script>
</div>

<div>
<div id="chart-450545d5-8552-452d-9865-24e203489872"></div>

<link rel="stylesheet" href="/c3.min.css">
<script src="/d3.min.js"></script>
<script src="/c3.min.js"></script>

<script>
c3.generate(
{"bindto":"#chart-450545d5-8552-452d-9865-24e203489872",
    "data": {
        "type": "bar",
        "columns": [
            ["data1", 30, 200, 100, 400, 150, 250],
            ["data2", 50, 20, 10, 40, 15, 25]
        ],
        "axes": {
            "data2": "y2"
        }
    },
    "axis": {
        "y2": {
            "show": true
        }
    }
}
);
</script>
</div>

<div>
<div id="chart-13cf1dc8-0793-442a-88e0-c9b490f11efb"></div>

<link rel="stylesheet" href="/c3.min.css">
<script src="/d3.min.js"></script>
<script src="/c3.min.js"></script>

<script>
c3.generate(
{"bindto":"#chart-13cf1dc8-0793-442a-88e0-c9b490f11efb",
    "data": {
        "type": "foo",
        "columns": [
            ["data1", 30, 200, 100, 400, 150, 250],
        ["data2", 50, 20, 10, 40, 15, 25]
        ],
        "axes": {
            "data2": "y2"
        }
    },
    "axis": {
        "y2": {
            "show": true
        }
    }
}
);
</script>
</div>

<div>
<div id="chart-243396b1-e28f-4d49-b5c9-7c3d858f0c31"></div>

<link rel="stylesheet" href="/c3.min.css">
<script src="/d3.min.js"></script>
<script src="/c3.min.js"></script>

<script>
c3.generate(
{"bindto":"#chart-243396b1-e28f-4d49-b5c9-7c3d858f0c31",
    "data": {
        "type": "bar",
        "columns": [
            ["data1", 30, 200, 100, 400, 150, 250],
        ["data2", 50, 20, 10, 40, 15, 25]
        ],
        "axes": {
            "data2": "y2"
        }
    },
    "axis": {
        "y2": {
            "show": true
        }
    }
}
);
</script>
</div>
        "###;
        let content_html = gen(content_raw);
        println!("content_html: {}", content_html);

        let re = Regex::new(r"chart-.{36}").unwrap();

        let after_content_html = re.replace_all(content_html.as_str(), "chart-");
        println!("after_content_html: {}", after_content_html);

        let after_content_html_target = re.replace_all(content_html_target, "chart-");
        println!("after_content_html_target: {}", after_content_html_target);

        assert_eq!(after_content_html_target, after_content_html)
}

#[test]
fn single_block_consistent_id() {
    let html = gen_html("```chart\n{\n\"a\": 1\n}\n```", "```chart", "```", "token0");
    assert!(html.contains("<div id=\"chart-token0\"></div>"));
    assert!(html.contains("{\"bindto\":\"#chart-token0\","));
    assert_eq!(html.matches("chart-token0").count(), 2);
}

#[test]
fn many_blocks_distinct_ids() {
    let mut doc = String::new();
    for k in 0..100 {
        doc.push_str("```chart\n{\n\"n\": ");
        doc.push_str(&k.to_string());
        doc.push_str("\n}\n```\n\n");
    }
    let html = gen(&doc);
    let re = Regex::new("chart-.{36}").unwrap();
    let mut ids: Vec<String> = re.find_iter(&html).map(|m| m.as_str().to_string()).collect();
    assert_eq!(ids.len(), 200);
    ids.sort();
    ids.dedup();
    assert_eq!(ids.len(), 100);
}

#[test]
fn adjacent_blocks_two_matches() {
    let text = "```chart\n{\n\"a\": 1\n}\n```\nplain text between\n```chart\n{\n\"b\": 2\n}\n```\n";
    let tv: Vec<char> = text.chars().collect();
    let sm: Vec<char> = "```chart".chars().collect();
    let em: Vec<char> = "```".chars().collect();
    let spans = extract(&tv, &sm, &em);
    assert_eq!(spans.len(), 2);
    let first: String = tv[spans[0].start..spans[0].end].iter().collect();
    let second: String = tv[spans[1].start..spans[1].end].iter().collect();
    assert_eq!(first, "```chart\n{\n\"a\": 1\n}\n```");
    assert_eq!(second, "```chart\n{\n\"b\": 2\n}\n```");
}

#[test]
fn unterminated_block_unchanged() {
    let text = "intro\n```chart\n{\n\"a\": 1\n}\nno closing fence here";
    assert_eq!(gen(text), text);
}

#[test]
fn empty_block_renders_template() {
    let html = gen_html("```chart\n```", "```chart", "```", "tok");
    assert!(html.contains("<div id=\"chart-tok\"></div>"));
    assert!(!html.contains("bindto"));
    assert!(html.contains("<script>\nc3.generate(\n);\n</script>"));
}

#[test]
fn empty_block_through_transform() {
    let html = gen("```chart\n```");
    assert!(html.contains("c3.generate(\n);"));
    assert!(!html.contains("bindto"));
}

#[test]
fn end_to_end_scenario_order() {
    let html = gen("```chart\n{\n\"data\":{\"type\":\"bar\"}\n}\n```");
    let re = Regex::new("chart-.{36}").unwrap();
    let norm = re.replace_all(&html, "chart-");
    let expected = "<div>\n<div id=\"chart-\"></div>\n\n<link rel=\"stylesheet\" href=\"/c3.min.css\">\n<script src=\"/d3.min.js\"></script>\n<script src=\"/c3.min.js\"></script>\n\n<script>\nc3.generate(\n{\"bindto\":\"#chart-\",\n\"data\":{\"type\":\"bar\"}\n}\n);\n</script>\n</div>";
    assert_eq!(norm, expected);
}

#[test]
fn both_syntaxes_rewritten() {
    let text = "a\n```chart\n{\n\"x\": 1\n}\n```\nb\n{% chart %}\n{\n\"y\": 2\n}\n{% endchart %}\nc\n";
    let html = gen(text);
    assert!(!html.contains("```chart"));
    assert!(!html.contains("{% chart %}"));
    assert!(!html.contains("{% endchart %}"));
    assert_eq!(html.matches("c3.generate(").count(), 2);
    assert!(html.starts_with("a\n"));
    assert!(html.contains("\nb\n"));
    assert!(html.ends_with("\nc\n"));
}

#[test]
fn renderer_support() {
    let c = Chart::new();
    assert!(c.supports_renderer("html"));
    assert!(!c.supports_renderer("not-supported"));
    assert_eq!(c.name(), "chart-preprocessor");
}

#[test]
fn markers_inside_payload_are_stripped() {
    let html = gen_html("```chart\n{\n\"note\": \"a```b\"\n}\n```", "```chart", "```", "t");
    assert!(html.contains("\"note\": \"ab\""));
}

#[test]
fn generated_ids_have_uuid_length() {
    let html = gen("```chart\n{\n\"a\": 1\n}\n```");
    let i = html.find("<div id=\"chart-").unwrap();
    let rest = &html[i + "<div id=\"chart-".len()..];
    let j = rest.find('"').unwrap();
    assert_eq!(j, 36);
}
