use vault_stats::{TemplArgs, Template};

#[test]
fn render() {
    let mut templ = Template {
        ..Default::default()
    };
    let args = &TemplArgs {
        date: "Hello,".to_string(),
        body: "World".to_string(),
    };
    templ.template = "?time ?body".to_string();
    assert_eq!(templ.render(args).unwrap(), "Hello, World".to_string())
}

#[test]
fn render_fills_every_placeholder() {
    let templ = Template {
        path: String::new(),
        template: "# ?time\n?body\n(?time)".to_string(),
    };
    let args = TemplArgs {
        date: "2025_08_15".to_string(),
        body: "idea".to_string(),
    };
    assert_eq!(templ.render(&args).unwrap(), "# 2025_08_15\nidea\n(2025_08_15)");
}

#[test]
fn render_fills_date_before_body() {
    let templ = Template {
        path: String::new(),
        template: "?time|?body".to_string(),
    };
    let args = TemplArgs {
        date: "?body".to_string(),
        body: "B".to_string(),
    };
    assert_eq!(templ.render(&args).unwrap(), "B|B");
}

#[test]
fn render_replaces_left_to_right() {
    let args = TemplArgs {
        date: "D".to_string(),
        body: "B".to_string(),
    };
    let cases = [
        ("?ti?time", "?tiD"),
        ("??time?bodyy", "?DBy"),
        ("none here", "none here"),
        ("", ""),
    ];
    for (text, expected) in cases {
        let templ = Template {
            path: String::new(),
            template: text.to_string(),
        };
        assert_eq!(templ.render(&args).unwrap(), expected);
    }
}
