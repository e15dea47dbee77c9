use empty_status::color::{green, red};
use empty_status::markup::Markup;

#[test]
fn escapes_and_preserves_inner_color() {
    let markup = Markup::text("<&").append(Markup::text("inner").fg(red())).fg(green());
    assert_eq!(
        markup.to_string(),
        "<span color='#B5BD68'>&lt;&amp;</span><span color='#CC6666'>inner</span>"
    );
}

#[test]
fn rendering_a_concatenation_concatenates_the_renderings() {
    let a = Markup::text("a'\"").fg(red());
    let b = Markup::text("b>");
    let joined = a.clone().append(b.clone()).to_string();
    assert_eq!(joined, format!("{}{}", a.to_string(), b.to_string()));
    assert_eq!(joined, "<span color='#CC6666'>a&apos;&quot;</span>b&gt;");
}

#[test]
fn painting_twice_keeps_the_first_color() {
    let once = Markup::text("x").fg(red());
    let twice = Markup::text("x").fg(red()).fg(green());
    assert!(once.same(&twice));
}

#[test]
fn join_puts_separators_between_parts_only() {
    let joined = Markup::join("-", vec![Markup::text("a"), Markup::text("b"), Markup::text("c")]);
    assert_eq!(joined.to_string(), "a-b-c");
    assert_eq!(Markup::join("-", Vec::new()).to_string(), "");
    assert_eq!(Markup::bracketed(Markup::text("x")).to_string(), "[x]");
    assert_eq!(Markup::delimited("<", Markup::text("x"), ">").to_string(), "&lt;x&gt;");
}
