use video_questions::render::{build_render_model, process_video, RawVideo};

fn video(id: &str, title: &str, description: &str) -> RawVideo {
    RawVideo {
        video_id: id.to_string(),
        title: title.to_string(),
        description: description.to_string(),
    }
}

#[test]
fn one_video_without_search() {
    let m = build_render_model(&vec![video("abc", "Q&A", "0:01:00 Hello world")], None).unwrap();
    assert_eq!(m.search, "");
    assert_eq!(m.videos.len(), 1);
    assert_eq!(m.videos[0].title, "Q&A");
    assert_eq!(m.videos[0].questions.len(), 1);
    assert_eq!(m.videos[0].questions[0].text, "Hello world");
    assert_eq!(m.videos[0].questions[0].url, "https://www.youtube.com/watch?v=abc&t=60");
}

#[test]
fn search_without_hits_keeps_the_video() {
    let m = build_render_model(&vec![video("abc", "Q&A", "0:01:00 Hello world")], Some("xyz"))
        .unwrap();
    assert_eq!(m.search, "xyz");
    assert_eq!(m.videos.len(), 1);
    assert_eq!(m.videos[0].title, "Q&A");
    assert_eq!(m.videos[0].questions.len(), 0);
}

#[test]
fn search_picks_matching_lines() {
    let v = video("v1", "T", "0:00:01 about heaps\n0:00:02 about trees\n0:00:03 heaps again");
    let qs = process_video(&v, Some("heap")).unwrap();
    assert_eq!(qs.len(), 2);
    assert_eq!(qs[0].url, "https://www.youtube.com/watch?v=v1&t=1");
    assert_eq!(qs[1].text, "heaps again");
    assert_eq!(qs[1].url, "https://www.youtube.com/watch?v=v1&t=3");
}

#[test]
fn empty_search_is_echoed_and_keeps_all() {
    let m = build_render_model(&vec![video("a", "A", "0:00:01 x\n0:00:02 y")], Some("")).unwrap();
    assert_eq!(m.search, "");
    assert_eq!(m.videos[0].questions.len(), 2);
}

#[test]
fn videos_keep_their_order() {
    let vs = vec![video("a", "First", "no stamps"), video("b", "Second", "1:00:00 late")];
    let m = build_render_model(&vs, None).unwrap();
    assert_eq!(m.videos.len(), 2);
    assert_eq!(m.videos[0].title, "First");
    assert_eq!(m.videos[0].questions.len(), 0);
    assert_eq!(m.videos[1].title, "Second");
    assert_eq!(m.videos[1].questions[0].url, "https://www.youtube.com/watch?v=b&t=3600");
}

#[test]
fn no_videos() {
    let m = build_render_model(&vec![], Some("q")).unwrap();
    assert_eq!(m.search, "q");
    assert_eq!(m.videos.len(), 0);
}

#[test]
fn oversized_offset_gives_no_model() {
    let vs = vec![video("a", "A", "0:00:01 ok"), video("b", "B", "99999999999999999999:00:00 x")];
    assert!(build_render_model(&vs, None).is_none());
}

#[test]
fn same_input_same_model() {
    let vs = vec![video("abc", "Q&A", "0:01:00 Hello world\n1:02:03 What is a B-tree?")];
    let a = build_render_model(&vs, Some("o")).unwrap();
    let b = build_render_model(&vs, Some("o")).unwrap();
    assert_eq!(a.search, b.search);
    assert_eq!(a.videos.len(), b.videos.len());
    for (x, y) in a.videos.iter().zip(b.videos.iter()) {
        assert_eq!(x.title, y.title);
        assert_eq!(x.questions.len(), y.questions.len());
        for (p, q) in x.questions.iter().zip(y.questions.iter()) {
            assert_eq!(p.text, q.text);
            assert_eq!(p.url, q.url);
        }
    }
}
