//! The relationship between the companion and its user: the reply styles
//! that closeness unlocks, the milestones that mark it, and the text that
//! tells the model where the relationship stands.  The closeness scores
//! themselves are floating-point values and are kept outside this crate;
//! the decisions here take what is derived from them as plain values.

use vstd::prelude::*;
use vstd::string::StringExecFns;
use crate::text::{spec_decimal, decimal_string, spec_join, strs_view, join_strs};
use crate::ilink::{spec_int_text, i64_text};

verus! {

/// How the user likes to receive affection.
#[derive(Clone, Copy, Debug, PartialEq, Eq, Structural)]
pub enum LoveLanguage {
    WordsOfAffirmation,
    QualityTime,
    ActsOfService,
    PhysicalTouch,
    SharedMoments,
}

/// The tone of the companion's replies.
#[derive(Clone, Copy, Debug, PartialEq, Eq, Structural)]
pub enum ResponseStyle {
    Polite,
    Friendly,
    Intimate,
    Passionate,
}

/// The kinds of milestone a relationship can reach.
#[derive(Clone, Copy, Debug, PartialEq, Eq, Structural)]
pub enum MilestoneType {
    FirstChat,
    FirstVoice,
    DeepTalk,
    Anniversary3Days,
    Anniversary7Days,
    Anniversary30Days,
    Anniversary100Days,
    IntimacyLevel20,
    IntimacyLevel50,
    IntimacyLevel80,
    UserSharedSecret,
    ComfortedUser,
    LateNightChat,
    LongConversation,
}

/// A milestone reached.
pub struct Milestone {
    pub id: String,
    pub persona_id: String,
    pub typ: MilestoneType,
    pub title: String,
    pub description: String,
    pub icon: String,
    pub achieved_at: String,
}

/// Something that happened in a conversation and moves the relationship.
pub enum InteractionEvent {
    FirstGreeting,
    LongConversation(u32),
    VoiceMessage,
    UserSharedFeelings,
    UserEmotionNegative,
    UserCold,
    UserAffectionate,
    ComfortSuccess,
    LateNightChat,
    DaysApart(u32),
    NicknameSet(String),
    MilestoneCustom(MilestoneType, String, String, String),
    Normal,
}

/// The instruction that sets the tone for a reply style.
pub open spec fn spec_style_instruction(style: ResponseStyle) -> Seq<char> {
    match style {
        ResponseStyle::Polite => "你刚认识用户，态度礼貌客气，保持适当距离，语气温和但不太过亲昵。"@,
        ResponseStyle::Friendly => "你和用户已经熟悉，可以开玩笑、主动关心，语气轻松自然，像好朋友一样。会用表情符号。"@,
        ResponseStyle::Intimate => "你和用户关系亲密，可以撒娇、开玩笑、偶尔吃醋，记得你们之间的小事。语气温柔亲昵，可以用「你呀」「笨蛋」之类的称呼，可以发可爱的表情。"@,
        ResponseStyle::Passionate => "你深爱着用户，可以表达想念、说情话、分享你的小秘密，语气非常温柔亲昵，会主动表达关心和爱意，可以用「亲爱的」「宝贝」等昵称（如果用户给你起了昵称就用那个）。真诚地表达情感，不要害羞。"@,
    }
}

/// The instruction that sets the tone for a reply style.
pub fn style_instruction(style: ResponseStyle) -> (r: &'static str)
    ensures
        r@ == spec_style_instruction(style),
{
    match style {
        ResponseStyle::Polite => "你刚认识用户，态度礼貌客气，保持适当距离，语气温和但不太过亲昵。",
        ResponseStyle::Friendly => "你和用户已经熟悉，可以开玩笑、主动关心，语气轻松自然，像好朋友一样。会用表情符号。",
        ResponseStyle::Intimate => "你和用户关系亲密，可以撒娇、开玩笑、偶尔吃醋，记得你们之间的小事。语气温柔亲昵，可以用「你呀」「笨蛋」之类的称呼，可以发可爱的表情。",
        ResponseStyle::Passionate => "你深爱着用户，可以表达想念、说情话、分享你的小秘密，语气非常温柔亲昵，会主动表达关心和爱意，可以用「亲爱的」「宝贝」等昵称（如果用户给你起了昵称就用那个）。真诚地表达情感，不要害羞。",
    }
}

/// A milestone that may be reached now: its kind, title, description and
/// icon.
pub struct MilestoneCandidate {
    pub typ: MilestoneType,
    pub title: &'static str,
    pub description: &'static str,
    pub icon: &'static str,
}

/// The kinds of milestone due after `days` days of acquaintance, with the
/// closeness bands the score lies in (20 to 25, 50 to 55, 80 to 85), in the
/// order they are checked.
pub open spec fn due_milestones(days: u32, band20: bool, band50: bool, band80: bool) -> Seq<MilestoneType> {
    (if days >= 3 { seq![MilestoneType::Anniversary3Days] } else { Seq::empty() })
        + (if days >= 7 { seq![MilestoneType::Anniversary7Days] } else { Seq::empty() })
        + (if days >= 30 { seq![MilestoneType::Anniversary30Days] } else { Seq::empty() })
        + (if days >= 100 { seq![MilestoneType::Anniversary100Days] } else { Seq::empty() })
        + (if band20 { seq![MilestoneType::IntimacyLevel20] } else { Seq::empty() })
        + (if band50 { seq![MilestoneType::IntimacyLevel50] } else { Seq::empty() })
        + (if band80 { seq![MilestoneType::IntimacyLevel80] } else { Seq::empty() })
}

/// The title a milestone kind is announced with.
pub open spec fn milestone_title(t: MilestoneType) -> Seq<char> {
    match t {
        MilestoneType::Anniversary3Days => "相识第3天"@,
        MilestoneType::Anniversary7Days => "相识一周"@,
        MilestoneType::Anniversary30Days => "相识一个月"@,
        MilestoneType::Anniversary100Days => "百日纪念"@,
        MilestoneType::IntimacyLevel20 => "关系破冰"@,
        MilestoneType::IntimacyLevel50 => "亲密无间"@,
        MilestoneType::IntimacyLevel80 => "心有灵犀"@,
        _ => "初次相遇"@,
    }
}

fn candidate(typ: MilestoneType) -> (c: MilestoneCandidate)
    requires
        typ != MilestoneType::FirstChat && typ != MilestoneType::FirstVoice && typ != MilestoneType::DeepTalk
            && typ != MilestoneType::UserSharedSecret && typ != MilestoneType::ComfortedUser
            && typ != MilestoneType::LateNightChat && typ != MilestoneType::LongConversation,
    ensures
        c.typ == typ,
        c.title@ == milestone_title(typ),
{
    match typ {
        MilestoneType::Anniversary3Days => MilestoneCandidate { typ, title: "相识第3天", description: "你们已经认识三天了，开始慢慢熟悉", icon: "🌸" },
        MilestoneType::Anniversary7Days => MilestoneCandidate { typ, title: "相识一周", description: "整整一周的陪伴，每一天都有你", icon: "🌺" },
        MilestoneType::Anniversary30Days => MilestoneCandidate { typ, title: "相识一个月", description: "一个月了，感谢一路有你", icon: "🌹" },
        MilestoneType::Anniversary100Days => MilestoneCandidate { typ, title: "百日纪念", description: "100天的陪伴，这是属于我们的纪念日", icon: "💐" },
        MilestoneType::IntimacyLevel20 => MilestoneCandidate { typ, title: "关系破冰", description: "我们不再拘谨，可以开玩笑了", icon: "😊" },
        MilestoneType::IntimacyLevel50 => MilestoneCandidate { typ, title: "亲密无间", description: "我们之间的距离越来越近了", icon: "💕" },
        _ => MilestoneCandidate { typ, title: "心有灵犀", description: "你是我最在意的人", icon: "❤️" },
    }
}

/// The milestones due now, in the order they are checked; each is recorded
/// unless it was reached before.
pub fn milestone_candidates(days: u32, band20: bool, band50: bool, band80: bool) -> (r: Vec<MilestoneCandidate>)
    ensures
        r@.map_values(|c: MilestoneCandidate| c.typ) == due_milestones(days, band20, band50, band80),
        forall|i: int| 0 <= i < r@.len() ==> (#[trigger] r@[i]).title@ == milestone_title(r@[i].typ),
{
    let mut r: Vec<MilestoneCandidate> = Vec::new();
    let ghost mut want: Seq<MilestoneType> = Seq::empty();
    if days >= 3 {
        r.push(candidate(MilestoneType::Anniversary3Days));
    }
    if days >= 7 {
        r.push(candidate(MilestoneType::Anniversary7Days));
    }
    if days >= 30 {
        r.push(candidate(MilestoneType::Anniversary30Days));
    }
    if days >= 100 {
        r.push(candidate(MilestoneType::Anniversary100Days));
    }
    if band20 {
        r.push(candidate(MilestoneType::IntimacyLevel20));
    }
    if band50 {
        r.push(candidate(MilestoneType::IntimacyLevel50));
    }
    if band80 {
        r.push(candidate(MilestoneType::IntimacyLevel80));
    }
    assert(r@.map_values(|c: MilestoneCandidate| c.typ) =~= due_milestones(days, band20, band50, band80));
    r
}

/// The milestones due now that were not reached before, in the order they
/// are checked.
pub open spec fn fresh_milestones(due: Seq<MilestoneType>, reached: Seq<MilestoneType>) -> Seq<MilestoneType>
    decreases due.len(),
{
    if due.len() == 0 {
        Seq::empty()
    } else {
        let rest = fresh_milestones(due.drop_last(), reached);
        if reached.contains(due.last()) {
            rest
        } else {
            rest.push(due.last())
        }
    }
}

/// The milestones to record now, `reached` being the kinds recorded before:
/// those due now and not reached yet, in the order they are checked.
pub fn new_milestones(days: u32, band20: bool, band50: bool, band80: bool, reached: &Vec<MilestoneType>) -> (r: Vec<MilestoneCandidate>)
    ensures
        r@.map_values(|c: MilestoneCandidate| c.typ) == fresh_milestones(due_milestones(days, band20, band50, band80), reached@),
        forall|i: int| 0 <= i < r@.len() ==> (#[trigger] r@[i]).title@ == milestone_title(r@[i].typ),
{
    let all = milestone_candidates(days, band20, band50, band80);
    let ghost due = due_milestones(days, band20, band50, band80);
    let mut out: Vec<MilestoneCandidate> = Vec::new();
    let mut k: usize = 0;
    assert(due.take(0) =~= Seq::<MilestoneType>::empty());
    assert(out@.map_values(|c: MilestoneCandidate| c.typ) =~= fresh_milestones(due.take(0), reached@));
    while k < all.len()
        invariant
            k <= all.len(),
            all@.map_values(|c: MilestoneCandidate| c.typ) == due,
            forall|i: int| 0 <= i < all@.len() ==> (#[trigger] all@[i]).title@ == milestone_title(all@[i].typ),
            out@.map_values(|c: MilestoneCandidate| c.typ) == fresh_milestones(due.take(k as int), reached@),
            forall|i: int| 0 <= i < out@.len() ==> (#[trigger] out@[i]).title@ == milestone_title(out@[i].typ),
        decreases all.len() - k,
    {
        let c = &all[k];
        assert(due[k as int] == c.typ);
        assert(due.take(k + 1).drop_last() =~= due.take(k as int));
        assert(due.take(k + 1).last() == c.typ);
        let mut seen = false;
        let mut j: usize = 0;
        while j < reached.len()
            invariant
                j <= reached.len(),
                seen <==> exists|q: int| 0 <= q < j && reached@[q] == c.typ,
            decreases reached.len() - j,
        {
            if reached[j] == c.typ {
                seen = true;
            }
            j += 1;
        }
        assert(seen <==> reached@.contains(c.typ));
        if !seen {
            let ghost before = out@;
            out.push(MilestoneCandidate { typ: c.typ, title: c.title, description: c.description, icon: c.icon });
            assert(out@.map_values(|x: MilestoneCandidate| x.typ) =~= before.map_values(|x: MilestoneCandidate| x.typ).push(c.typ));
        }
        k += 1;
    }
    assert(due.take(k as int) =~= due);
    out
}

/// The milestones recorded now are none of those reached before, and each
/// kind comes at most once.
pub proof fn law_new_milestones_fresh(days: u32, band20: bool, band50: bool, band80: bool, reached: Seq<MilestoneType>)
    ensures
        forall|i: int| 0 <= i < fresh_milestones(due_milestones(days, band20, band50, band80), reached).len()
            ==> !reached.contains(#[trigger] fresh_milestones(due_milestones(days, band20, band50, band80), reached)[i]),
        fresh_milestones(due_milestones(days, band20, band50, band80), reached).no_duplicates(),
{
    let due = due_milestones(days, band20, band50, band80);
    lemma_due_ranked(days, band20, band50, band80);
    assert forall|i: int, j: int| 0 <= i < due.len() && 0 <= j < due.len() && i != j implies due[i] != due[j] by {
        if i < j {
            assert(check_rank(due[i]) < check_rank(due[j]));
        } else {
            assert(check_rank(due[j]) < check_rank(due[i]));
        }
    }
    lemma_fresh(due, reached);
}

/// The place of a milestone kind in the order the checks run.
spec fn check_rank(t: MilestoneType) -> int {
    match t {
        MilestoneType::Anniversary3Days => 1,
        MilestoneType::Anniversary7Days => 2,
        MilestoneType::Anniversary30Days => 3,
        MilestoneType::Anniversary100Days => 4,
        MilestoneType::IntimacyLevel20 => 5,
        MilestoneType::IntimacyLevel50 => 6,
        MilestoneType::IntimacyLevel80 => 7,
        _ => 0,
    }
}

/// Kinds in strictly increasing check order, all of rank below `k`.
spec fn ranked_below(s: Seq<MilestoneType>, k: int) -> bool {
    &&& forall|i: int, j: int| 0 <= i < j < s.len() ==> check_rank(#[trigger] s[i]) < check_rank(#[trigger] s[j])
    &&& forall|i: int| 0 <= i < s.len() ==> check_rank(#[trigger] s[i]) < k
}

proof fn lemma_step_ranked(s: Seq<MilestoneType>, c: bool, t: MilestoneType)
    requires
        ranked_below(s, check_rank(t)),
    ensures
        ranked_below(s + (if c { seq![t] } else { Seq::empty() }), check_rank(t) + 1),
{
    let n = s + (if c { seq![t] } else { Seq::empty() });
    if c {
        assert(n =~= s.push(t));
        assert forall|i: int, j: int| 0 <= i < j < n.len() implies check_rank(#[trigger] n[i]) < check_rank(#[trigger] n[j]) by {
            assert(n[i] == s[i]);
            if j < s.len() {
                assert(n[j] == s[j]);
            }
        }
        assert forall|i: int| 0 <= i < n.len() implies check_rank(#[trigger] n[i]) < check_rank(t) + 1 by {
            if i < s.len() {
                assert(n[i] == s[i]);
            }
        }
    } else {
        assert(n =~= s);
    }
}

proof fn lemma_due_ranked(days: u32, band20: bool, band50: bool, band80: bool)
    ensures
        forall|i: int, j: int| 0 <= i < j < due_milestones(days, band20, band50, band80).len()
            ==> check_rank(#[trigger] due_milestones(days, band20, band50, band80)[i]) < check_rank(#[trigger] due_milestones(days, band20, band50, band80)[j]),
{
    let e = Seq::<MilestoneType>::empty();
    let p1 = e + (if days >= 3 { seq![MilestoneType::Anniversary3Days] } else { Seq::empty() });
    lemma_step_ranked(e, days >= 3, MilestoneType::Anniversary3Days);
    let p2 = p1 + (if days >= 7 { seq![MilestoneType::Anniversary7Days] } else { Seq::empty() });
    lemma_step_ranked(p1, days >= 7, MilestoneType::Anniversary7Days);
    let p3 = p2 + (if days >= 30 { seq![MilestoneType::Anniversary30Days] } else { Seq::empty() });
    lemma_step_ranked(p2, days >= 30, MilestoneType::Anniversary30Days);
    let p4 = p3 + (if days >= 100 { seq![MilestoneType::Anniversary100Days] } else { Seq::empty() });
    lemma_step_ranked(p3, days >= 100, MilestoneType::Anniversary100Days);
    let p5 = p4 + (if band20 { seq![MilestoneType::IntimacyLevel20] } else { Seq::empty() });
    lemma_step_ranked(p4, band20, MilestoneType::IntimacyLevel20);
    let p6 = p5 + (if band50 { seq![MilestoneType::IntimacyLevel50] } else { Seq::empty() });
    lemma_step_ranked(p5, band50, MilestoneType::IntimacyLevel50);
    let p7 = p6 + (if band80 { seq![MilestoneType::IntimacyLevel80] } else { Seq::empty() });
    lemma_step_ranked(p6, band80, MilestoneType::IntimacyLevel80);
    let first = if days >= 3 { seq![MilestoneType::Anniversary3Days] } else { Seq::<MilestoneType>::empty() };
    assert(p1 =~= first);
    assert(p7 =~= due_milestones(days, band20, band50, band80));
}

proof fn lemma_fresh(due: Seq<MilestoneType>, reached: Seq<MilestoneType>)
    requires
        due.no_duplicates(),
    ensures
        forall|i: int| 0 <= i < fresh_milestones(due, reached).len()
            ==> !reached.contains(#[trigger] fresh_milestones(due, reached)[i]),
        forall|i: int| 0 <= i < fresh_milestones(due, reached).len()
            ==> due.contains(#[trigger] fresh_milestones(due, reached)[i]),
        fresh_milestones(due, reached).no_duplicates(),
    decreases due.len(),
{
    if due.len() > 0 {
        let d = due.drop_last();
        assert forall|i: int, j: int| 0 <= i < d.len() && 0 <= j < d.len() && i != j implies d[i] != d[j] by {
            assert(d[i] == due[i] && d[j] == due[j]);
        }
        lemma_fresh(d, reached);
        let rest = fresh_milestones(d, reached);
        let x = due.last();
        assert forall|i: int| 0 <= i < rest.len() implies due.contains(#[trigger] rest[i]) by {
            let w = choose|w: int| 0 <= w < d.len() && d[w] == rest[i];
            assert(due[w] == d[w]);
        }
        if !reached.contains(x) {
            let f = rest.push(x);
            assert forall|i: int| 0 <= i < rest.len() implies rest[i] != x by {
                let w = choose|w: int| 0 <= w < d.len() && d[w] == rest[i];
                assert(due[w] == d[w]);
                assert(w != due.len() - 1);
            }
            assert forall|i: int, j: int| 0 <= i < f.len() && 0 <= j < f.len() && i != j implies f[i] != f[j] by {
                if i < rest.len() && j < rest.len() {
                    assert(f[i] == rest[i] && f[j] == rest[j]);
                } else if i < rest.len() {
                    assert(f[i] == rest[i]);
                } else if j < rest.len() {
                    assert(f[j] == rest[j]);
                }
            }
            assert forall|i: int| 0 <= i < f.len() implies due.contains(#[trigger] f[i]) && !reached.contains(f[i]) by {
                if i < rest.len() {
                    assert(f[i] == rest[i]);
                } else {
                    assert(due[due.len() - 1] == x);
                }
            }
        }
    }
}

/// Every milestone due is either reached before or recorded now.
proof fn lemma_fresh_covers(due: Seq<MilestoneType>, reached: Seq<MilestoneType>)
    ensures
        forall|i: int| 0 <= i < due.len() ==> reached.contains(#[trigger] due[i]) || fresh_milestones(due, reached).contains(due[i]),
    decreases due.len(),
{
    if due.len() > 0 {
        let d = due.drop_last();
        lemma_fresh_covers(d, reached);
        let rest = fresh_milestones(d, reached);
        let x = due.last();
        assert forall|i: int| 0 <= i < due.len() implies reached.contains(#[trigger] due[i]) || fresh_milestones(due, reached).contains(due[i]) by {
            if i < d.len() {
                assert(due[i] == d[i]);
                if rest.contains(d[i]) {
                    let w = choose|w: int| 0 <= w < rest.len() && rest[w] == d[i];
                    if !reached.contains(x) {
                        assert(rest.push(x)[w] == rest[w]);
                    }
                }
            } else if !reached.contains(x) {
                assert(rest.push(x)[rest.len() as int] == x);
            }
        }
    }
}

/// With every due milestone reached, none is new.
proof fn lemma_fresh_none(due: Seq<MilestoneType>, reached: Seq<MilestoneType>)
    requires
        forall|i: int| 0 <= i < due.len() ==> reached.contains(#[trigger] due[i]),
    ensures
        fresh_milestones(due, reached) == Seq::<MilestoneType>::empty(),
    decreases due.len(),
{
    if due.len() > 0 {
        let d = due.drop_last();
        assert forall|i: int| 0 <= i < d.len() implies reached.contains(#[trigger] d[i]) by {
            assert(d[i] == due[i]);
        }
        lemma_fresh_none(d, reached);
        assert(reached.contains(due[due.len() - 1]));
    }
}

/// Checking again, with the milestones just recorded added to those
/// reached, records nothing.
pub proof fn law_new_milestones_once(days: u32, band20: bool, band50: bool, band80: bool, reached: Seq<MilestoneType>)
    ensures
        fresh_milestones(
            due_milestones(days, band20, band50, band80),
            reached + fresh_milestones(due_milestones(days, band20, band50, band80), reached),
        ) == Seq::<MilestoneType>::empty(),
{
    let due = due_milestones(days, band20, band50, band80);
    let fresh = fresh_milestones(due, reached);
    let all = reached + fresh;
    lemma_fresh_covers(due, reached);
    assert forall|i: int| 0 <= i < due.len() implies all.contains(#[trigger] due[i]) by {
        if reached.contains(due[i]) {
            let w = choose|w: int| 0 <= w < reached.len() && reached[w] == due[i];
            assert(all[w] == reached[w]);
        } else {
            let w = choose|w: int| 0 <= w < fresh.len() && fresh[w] == due[i];
            assert(all[reached.len() + w] == fresh[w]);
        }
    }
    lemma_fresh_none(due, all);
}

/// How the companion feels about the user, by the sign of a strong mood.
#[derive(Clone, Copy, Debug, PartialEq, Eq, Structural)]
pub enum MoodBand {
    /// The mood is above 30: the companion misses the user.
    Missing,
    /// The mood is below -30: the companion feels neglected.
    Neglected,
    /// Anything in between.
    Neutral,
}

/// The relationship as the system prompt describes it.
pub open spec fn spec_relationship_context(
    style: ResponseStyle,
    days: u32,
    conversations: u64,
    intimacy: u32,
    nickname: Option<Seq<char>>,
    mood: MoodBand,
    hours_since_last: Option<i64>,
) -> Seq<char> {
    let name = match nickname {
        Some(n) => n,
        None => "你"@,
    };
    let head = seq![
        "【关系状态】你们已经认识"@ + spec_decimal(days as nat) + "天，共进行了"@ + spec_decimal(conversations as nat)
            + "次对话。当前亲密度"@ + spec_decimal(intimacy as nat) + "/100。"@,
        spec_style_instruction(style),
        "你对用户的称呼："@ + name,
    ];
    let with_mood = match mood {
        MoodBand::Missing => head.push("你现在非常想念用户，很想和TA说话。"@),
        MoodBand::Neglected => head.push("用户最近有点冷落你，你有点小情绪但还是很在意TA。"@),
        MoodBand::Neutral => head,
    };
    let parts = match hours_since_last {
        Some(h) => if h >= 24 {
            with_mood.push("距离上次对话已经过去"@ + spec_int_text(h as int) + "小时，主动问候一下吧。"@)
        } else {
            with_mood
        },
        None => with_mood,
    };
    spec_join(parts, "\n"@)
}

/// Describes the relationship for the system prompt: how long the two have
/// known each other, how close they are, what the user is called, the
/// companion's mood, and a nudge to greet after a day of silence.
pub fn build_relationship_context(
    style: ResponseStyle,
    days: u32,
    conversations: u64,
    intimacy: u32,
    nickname: &Option<String>,
    mood: MoodBand,
    hours_since_last: Option<i64>,
) -> (r: String)
    ensures
        r@ == spec_relationship_context(style, days, conversations, intimacy, match nickname {
            Some(n) => Some(n@),
            None => None,
        }, mood, hours_since_last),
{
    let mut parts: Vec<String> = Vec::new();
    let mut head = String::from_str("【关系状态】你们已经认识");
    head.append(decimal_string(days as u64).as_str());
    head.append("天，共进行了");
    head.append(decimal_string(conversations).as_str());
    head.append("次对话。当前亲密度");
    head.append(decimal_string(intimacy as u64).as_str());
    head.append("/100。");
    parts.push(head);
    parts.push(String::from_str(style_instruction(style)));
    let mut call = String::from_str("你对用户的称呼：");
    match nickname {
        Some(n) => call.append(n.as_str()),
        None => call.append("你"),
    }
    parts.push(call);
    match mood {
        MoodBand::Missing => parts.push(String::from_str("你现在非常想念用户，很想和TA说话。")),
        MoodBand::Neglected => parts.push(String::from_str("用户最近有点冷落你，你有点小情绪但还是很在意TA。")),
        MoodBand::Neutral => {},
    }
    match hours_since_last {
        Some(h) => {
            if h >= 24 {
                let mut s = String::from_str("距离上次对话已经过去");
                s.append(i64_text(h).as_str());
                s.append("小时，主动问候一下吧。");
                parts.push(s);
            }
        },
        None => {},
    }
    assert(strs_view(parts@) =~= {
        let name = match nickname {
            Some(n) => n@,
            None => "你"@,
        };
        let head = seq![
            "【关系状态】你们已经认识"@ + spec_decimal(days as nat) + "天，共进行了"@ + spec_decimal(conversations as nat)
                + "次对话。当前亲密度"@ + spec_decimal(intimacy as nat) + "/100。"@,
            spec_style_instruction(style),
            "你对用户的称呼："@ + name,
        ];
        let with_mood = match mood {
            MoodBand::Missing => head.push("你现在非常想念用户，很想和TA说话。"@),
            MoodBand::Neglected => head.push("用户最近有点冷落你，你有点小情绪但还是很在意TA。"@),
            MoodBand::Neutral => head,
        };
        match hours_since_last {
            Some(h) => if h >= 24 {
                with_mood.push("距离上次对话已经过去"@ + spec_int_text(h as int) + "小时，主动问候一下吧。"@)
            } else {
                with_mood
            },
            None => with_mood,
        }
    });
    join_strs(&parts, "\n")
}

} // verus!
