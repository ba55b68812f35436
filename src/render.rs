use vstd::prelude::*;

use crate::link::{build_link, link_of};
use crate::search::{passes, search_filter, search_view};
use crate::timestamp::{extract_timestamps, match_views, stamps, stamps_fit, StampModel};

verus! {

/// One video as the video source hands it over.
pub struct RawVideo {
    pub video_id: String,
    pub title: String,
    pub description: String,
}

/// A question: the text of a timestamped line and the link to that moment.
pub struct Question {
    pub text: String,
    pub url: String,
}

/// A video with the questions found in its description.
pub struct Video {
    pub title: String,
    pub questions: Vec<Question>,
}

/// What the page shows: the search term as it was given, and every video.
pub struct RenderModel {
    pub search: String,
    pub videos: Vec<Video>,
}

pub ghost struct RawVideoModel {
    pub video_id: Seq<char>,
    pub title: Seq<char>,
    pub description: Seq<char>,
}

pub ghost struct QuestionModel {
    pub text: Seq<char>,
    pub url: Seq<char>,
}

pub ghost struct VideoModel {
    pub title: Seq<char>,
    pub questions: Seq<QuestionModel>,
}

pub ghost struct RenderModelView {
    pub search: Seq<char>,
    pub videos: Seq<VideoModel>,
}

impl View for RawVideo {
    type V = RawVideoModel;

    open spec fn view(&self) -> RawVideoModel {
        RawVideoModel {
            video_id: self.video_id@,
            title: self.title@,
            description: self.description@,
        }
    }
}

impl View for Question {
    type V = QuestionModel;

    open spec fn view(&self) -> QuestionModel {
        QuestionModel { text: self.text@, url: self.url@ }
    }
}

pub open spec fn question_views(qs: Seq<Question>) -> Seq<QuestionModel> {
    qs.map_values(|q: Question| q@)
}

impl View for Video {
    type V = VideoModel;

    open spec fn view(&self) -> VideoModel {
        VideoModel { title: self.title@, questions: question_views(self.questions@) }
    }
}

impl View for RenderModel {
    type V = RenderModelView;

    open spec fn view(&self) -> RenderModelView {
        RenderModelView { search: self.search@, videos: self.videos@.map_values(|v: Video| v@) }
    }
}

/// The questions made from the timestamps `st` of video `id`: those whose text
/// passes the search, in order, each linked to its offset.
pub open spec fn questions_from(
    id: Seq<char>,
    st: Seq<StampModel>,
    search: Option<Seq<char>>,
) -> Seq<QuestionModel>
    decreases st.len(),
{
    if st.len() == 0 {
        seq![]
    } else {
        let before = questions_from(id, st.drop_last(), search);
        let last = st.last();
        if passes(search, last.text) {
            before.push(QuestionModel { text: last.text, url: link_of(id, last.total()) })
        } else {
            before
        }
    }
}

/// The questions of video `v` under the search `search`.
pub open spec fn video_questions(v: RawVideoModel, search: Option<Seq<char>>) -> Seq<
    QuestionModel,
> {
    questions_from(v.video_id, stamps(v.description), search)
}

/// Whether every timestamp offset of every video fits in a `u64`.
pub open spec fn all_fit(videos: Seq<RawVideoModel>) -> bool {
    forall|i: int| 0 <= i < videos.len() ==> stamps_fit(#[trigger] videos[i].description)
}

/// The page for `videos` under the search `search`: the search term, empty
/// when absent, and every video in order with its questions.
pub open spec fn render_model(
    videos: Seq<RawVideoModel>,
    search: Option<Seq<char>>,
) -> RenderModelView {
    RenderModelView {
        search: match search {
            None => Seq::<char>::empty(),
            Some(q) => q,
        },
        videos: videos.map_values(
            |v: RawVideoModel| VideoModel { title: v.title, questions: video_questions(v, search) },
        ),
    }
}

/// What the render model builder returns on `videos` and `search`.
pub open spec fn render_outcome(
    videos: Seq<RawVideoModel>,
    search: Option<Seq<char>>,
    r: Option<RenderModel>,
) -> bool {
    match r {
        Some(m) => all_fit(videos) && m@ == render_model(videos, search),
        None => !all_fit(videos),
    }
}

/// The questions of one video, in the order of their lines; `None` exactly
/// when a timestamp offset in its description does not fit in a `u64`.
pub fn process_video(video: &RawVideo, search: Option<&str>) -> (r: Option<Vec<Question>>)
    ensures
        match r {
            Some(qs) => stamps_fit(video.description@) && question_views(qs@) == video_questions(
                video@,
                search_view(search),
            ),
            None => !stamps_fit(video.description@),
        },
{
    let ms = match extract_timestamps(video.description.as_str()) {
        None => {
            return None;
        },
        Some(ms) => ms,
    };
    let ghost st = match_views(ms@);
    let ghost sv = search_view(search);
    let mut qs: Vec<Question> = Vec::new();
    let mut i: usize = 0;
    while i < ms.len()
        invariant
            i <= ms@.len(),
            st == match_views(ms@),
            sv == search_view(search),
            forall|j: int| 0 <= j < ms@.len() ==> #[trigger] ms@[j].wf(),
            question_views(qs@) == questions_from(video.video_id@, st.subrange(0, i as int), sv),
        decreases ms@.len() - i,
    {
        let m = &ms[i];
        proof {
            assert(st.subrange(0, i + 1).drop_last() == st.subrange(0, i as int));
            assert(st.subrange(0, i + 1).last() == m@);
            assert(m.wf());
        }
        if search_filter(search, m.text.as_str()) {
            let url = build_link(video.video_id.as_str(), m.total_seconds);
            let q = Question { text: m.text.clone(), url };
            let ghost before = qs@;
            qs.push(q);
            assert(question_views(qs@) == question_views(before).push(q@));
        }
        i = i + 1;
    }
    assert(st.subrange(0, ms@.len() as int) == st);
    Some(qs)
}

/// The page model for `videos` under `search`; `None` exactly when a
/// timestamp offset in some description does not fit in a `u64`.
pub fn build_render_model(videos: &Vec<RawVideo>, search: Option<&str>) -> (r: Option<RenderModel>)
    ensures
        render_outcome(videos@.map_values(|v: RawVideo| v@), search_view(search), r),
{
    let ghost raw = videos@.map_values(|v: RawVideo| v@);
    let ghost sv = search_view(search);
    let echoed = match search {
        None => String::new(),
        Some(s) => s.to_owned(),
    };
    let mut out: Vec<Video> = Vec::new();
    let mut i: usize = 0;
    while i < videos.len()
        invariant
            i <= videos@.len(),
            raw == videos@.map_values(|v: RawVideo| v@),
            sv == search_view(search),
            out@.len() == i,
            forall|j: int| 0 <= j < i ==> stamps_fit(#[trigger] raw[j].description),
            forall|j: int|
                0 <= j < i ==> #[trigger] out@[j]@ == (VideoModel {
                    title: raw[j].title,
                    questions: video_questions(raw[j], sv),
                }),
        decreases videos@.len() - i,
    {
        let v = &videos[i];
        match process_video(v, search) {
            None => {
                proof {
                    assert(!stamps_fit(raw[i as int].description));
                }
                return None;
            },
            Some(questions) => {
                let video = Video { title: v.title.clone(), questions };
                out.push(video);
            },
        }
        i = i + 1;
    }
    let m = RenderModel { search: echoed, videos: out };
    assert(m@.videos == render_model(raw, sv).videos);
    Some(m)
}

/// The builder keeps no state between calls: two calls on the same videos and
/// the same search agree on whether a model comes back, and on every part of it.
pub proof fn render_model_deterministic(
    videos: Seq<RawVideoModel>,
    search: Option<Seq<char>>,
    r1: Option<RenderModel>,
    r2: Option<RenderModel>,
)
    requires
        render_outcome(videos, search, r1),
        render_outcome(videos, search, r2),
    ensures
        r1 is Some <==> r2 is Some,
        r1 is Some ==> r1->0@ == r2->0@,
{
}

} // verus!
