use adventure::assets::{
    first_existing, has_known_ext, is_audio_name, is_movie_path, looks_like_path, parse_visuals_rpy,
    strip_known_ext, audio_ext_list, visual_ext_list, AssetResolver,
};
use adventure::movie::path_is_movie;

#[test]
fn parse_visuals_rpy_movie_lines() {
    let src = r#"
image anima1 = Movie(play="images/animations/anima1.webm")
image zkbsanim3= Movie(play="images/animations/zkbsanim3.webm")
# comment
image bg kitchen = "images/bgn1.jpg"
"#;
    let map = parse_visuals_rpy(src);
    assert_eq!(map.len(), 2);
    assert_eq!(map[0].0, "anima1");
    assert_eq!(map[0].1, "images/animations/anima1.webm");
    assert_eq!(map[1].0, "zkbsanim3");
}

#[test]
fn parse_visuals_single_quotes_and_crlf() {
    let src = "image a = Movie(play = 'x/a.webm', loop=True)\r\nimage  = Movie(play=\"n.webm\")\r\nimage b = Movie(size=1)\n";
    let map = parse_visuals_rpy(src);
    assert_eq!(map, vec![("a".to_string(), "x/a.webm".to_string())]);
}

fn fixture() -> AssetResolver {
    let mut r = AssetResolver::new("/dest", "/extract/");
    r.load_visuals("image anima1 = Movie(play=\"images/animations/anima1.webm\")\n");
    r
}

#[test]
fn dest_wins_over_extract() {
    // Each candidate is probed under dest before extract.
    let r = fixture();
    let c = r.visual_candidates("bgn1");
    assert_eq!(c[0], "/dest/images/bgn1.jpg");
    assert_eq!(c[1], "/extract/images/bgn1.jpg");
}

#[test]
fn table_resolves_bgn1_ch1_anima1_spark() {
    let r = fixture();
    // anima1: its Movie() path comes first.
    let c = r.visual_candidates("anima1");
    assert_eq!(c[0], "/dest/images/animations/anima1.webm");
    // ch1: images/ch1.{jpg,png,...}; pick the one that "exists".
    let c = r.visual_candidates("ch1");
    assert_eq!(c.len(), 16);
    let found: Vec<bool> = c.iter().map(|p| p == "/extract/images/ch1.png").collect();
    assert_eq!(first_existing(&c, &found).as_deref(), Some("/extract/images/ch1.png"));
    // spark.mp3: the authored path, then audio/spark.mp3.
    let c = r.audio_candidates("spark.mp3");
    assert_eq!(c[0], "/dest/spark.mp3");
    assert_eq!(c[2], "/dest/audio/spark.mp3");
    assert_eq!(c[4], "/dest/audio/spark.mp3");
    assert!(is_movie_path("images/animations/anima1.webm"));
}

#[test]
fn candidates_order_and_audio_detection() {
    let r = fixture();
    assert!(r.visual_candidates("   ").is_empty());
    assert!(is_audio_name("audio/spark"));
    assert!(is_audio_name("SPARK.OGG"));
    assert!(!is_audio_name("bgn1"));
    let c = r.candidates("spark.mp3");
    assert_eq!(c, r.audio_candidates("spark.mp3"));
    let c = r.candidates("bgn1");
    let mut expect = r.visual_candidates("bgn1");
    expect.extend(r.audio_candidates("bgn1"));
    assert_eq!(c, expect);
}

#[test]
fn extension_helpers() {
    assert!(looks_like_path("a/b"));
    assert!(looks_like_path("a.png"));
    assert!(!looks_like_path("bgn1"));
    assert!(has_known_ext("x.JPG", &visual_ext_list()));
    assert!(!has_known_ext("x.mp3", &visual_ext_list()));
    assert_eq!(strip_known_ext("spark.mp3", &audio_ext_list()), "spark");
    assert_eq!(strip_known_ext("spark.txt", &audio_ext_list()), "spark.txt");
    assert!(is_movie_path("clip.MP4"));
    assert!(!is_movie_path("clip.png"));
    assert!(path_is_movie("  Intro.WEBM "));
    assert!(!path_is_movie("bg/kitchen"));
}

#[test]
fn insert_movie_overrides() {
    let mut r = fixture();
    r.insert_movie("anima1", "other.webm");
    assert_eq!(r.visual_candidates("anima1")[0], "/dest/other.webm");
    assert_eq!(r.dest(), "/dest");
    assert_eq!(r.extract(), "/extract/");
}

#[test]
fn with_scripts_dest_overrides_extract_and_later_lines_win() {
    let extract = "image a = Movie(play=\"x/a.webm\")\nimage b = Movie(play=\"x/b.webm\")\n";
    let dest = "image a = Movie(play=\"d/a1.webm\")\nimage a = Movie(play=\"d/a2.webm\")\n";
    let r = AssetResolver::with_scripts("/dest", "/extract", Some(extract), Some(dest));
    assert_eq!(r.movies().get("a").map(|s| s.as_str()), Some("d/a2.webm"));
    assert_eq!(r.movies().get("b").map(|s| s.as_str()), Some("x/b.webm"));
    assert_eq!(r.movies().len(), 2);
    let none = AssetResolver::with_scripts("/dest", "/extract", None, None);
    assert_eq!(none.movies().len(), 0);
}

#[test]
fn resolve_on_one_file_system_is_visual_then_audio() {
    let r = fixture();
    let fs: std::collections::HashSet<&str> =
        ["/extract/audio/bgn1.ogg", "/extract/images/ch1.png", "/dest/audio/spark.mp3"].into_iter().collect();
    let flags = |c: &Vec<String>| -> Vec<bool> { c.iter().map(|p| fs.contains(p.as_str())).collect() };
    for name in ["bgn1", "ch1", "spark.mp3", "anima1", "nothing"] {
        let all = r.candidates(name);
        let vis = r.visual_candidates(name);
        let aud = r.audio_candidates(name);
        let got = r.resolve(name, &flags(&all));
        let expect = if is_audio_name(name) {
            r.resolve_audio(name, &flags(&aud))
        } else {
            r.resolve_visual(name, &flags(&vis)).or_else(|| r.resolve_audio(name, &flags(&aud)))
        };
        assert_eq!(got, expect, "{name}");
    }
    assert_eq!(r.resolve("bgn1", &flags(&r.candidates("bgn1"))).as_deref(), Some("/extract/audio/bgn1.ogg"));
    assert_eq!(r.resolve("ch1", &flags(&r.candidates("ch1"))).as_deref(), Some("/extract/images/ch1.png"));
}
