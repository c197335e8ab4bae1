//! Long-term "core memory" of a persona: what is known about the user, how
//! it is rendered into the system prompt, and how a freshly extracted set of
//! facts is merged into it.

use vstd::prelude::*;
use vstd::string::StringExecFns;
use crate::models::Message;
use crate::text::{spec_contains, spec_join, strs_view, join_strs, spec_decimal, decimal_string, str_eq, lemma_strs_view_push};

verus! {

/// Basic facts about the user.
pub struct UserProfile {
    pub name: Option<String>,
    pub nickname: Option<String>,
    pub birthday: Option<String>,
    pub age: Option<u32>,
    pub gender: Option<String>,
    pub occupation: Option<String>,
    pub city: Option<String>,
    pub education: Option<String>,
    pub mbti: Option<String>,
}

/// What the user likes and dislikes, and their daily rhythm.
pub struct Preferences {
    pub favorite_foods: Vec<String>,
    pub favorite_music: Vec<String>,
    pub favorite_movies: Vec<String>,
    pub favorite_games: Vec<String>,
    pub hobbies: Vec<String>,
    pub dislikes: Vec<String>,
    pub favorite_color: Option<String>,
    pub routines: Vec<String>,
    pub sleep_time: Option<String>,
    pub wake_time: Option<String>,
}

/// A person in the user's life.
pub struct PersonRef {
    pub name: String,
    pub relation: String,
    pub notes: Option<String>,
}

/// A pet of the user.
pub struct PetInfo {
    pub name: String,
    pub species: String,
    pub notes: Option<String>,
}

/// An event worth remembering.
pub struct KeyEvent {
    pub date: String,
    pub title: String,
    pub description: String,
    pub emotion: Option<String>,
}

/// A date that matters to both.
pub struct SpecialDate {
    pub date: String,
    pub label: String,
    pub note: Option<String>,
}

/// Memories shared between the user and the companion.
pub struct SharedMemories {
    pub our_songs: Vec<String>,
    pub our_places: Vec<String>,
    pub inside_jokes: Vec<String>,
    pub promises: Vec<String>,
    pub special_dates: Vec<SpecialDate>,
}

/// Everything a persona remembers about its user.
pub struct CoreMemory {
    pub persona_id: String,
    pub user_profile: UserProfile,
    pub preferences: Preferences,
    pub relationships: Vec<PersonRef>,
    pub pets: Vec<PetInfo>,
    pub key_events: Vec<KeyEvent>,
    pub shared_memories: SharedMemories,
    pub updated_at: String,
}

impl UserProfile {
    /// A profile with nothing known.
    pub fn empty() -> (r: Self)
        ensures
            r.name is None && r.nickname is None && r.birthday is None && r.age is None
                && r.gender is None && r.occupation is None && r.city is None
                && r.education is None && r.mbti is None,
    {
        UserProfile {
            name: None,
            nickname: None,
            birthday: None,
            age: None,
            gender: None,
            occupation: None,
            city: None,
            education: None,
            mbti: None,
        }
    }
}

impl Preferences {
    /// Preferences with nothing known.
    pub fn empty() -> (r: Self)
        ensures
            r.favorite_foods@.len() == 0 && r.favorite_music@.len() == 0
                && r.favorite_movies@.len() == 0 && r.favorite_games@.len() == 0
                && r.hobbies@.len() == 0 && r.dislikes@.len() == 0 && r.favorite_color is None
                && r.routines@.len() == 0 && r.sleep_time is None && r.wake_time is None,
    {
        Preferences {
            favorite_foods: Vec::new(),
            favorite_music: Vec::new(),
            favorite_movies: Vec::new(),
            favorite_games: Vec::new(),
            hobbies: Vec::new(),
            dislikes: Vec::new(),
            favorite_color: None,
            routines: Vec::new(),
            sleep_time: None,
            wake_time: None,
        }
    }
}

impl SharedMemories {
    /// No shared memories yet.
    pub fn empty() -> (r: Self)
        ensures
            r.our_songs@.len() == 0 && r.our_places@.len() == 0 && r.inside_jokes@.len() == 0
                && r.promises@.len() == 0 && r.special_dates@.len() == 0,
    {
        SharedMemories {
            our_songs: Vec::new(),
            our_places: Vec::new(),
            inside_jokes: Vec::new(),
            promises: Vec::new(),
            special_dates: Vec::new(),
        }
    }
}

impl CoreMemory {
    /// A fresh memory of a persona, stamped with `updated_at`.
    pub fn new(persona_id: &str, updated_at: &str) -> (r: Self)
        ensures
            r.persona_id@ == persona_id@,
            r.updated_at@ == updated_at@,
            r.relationships@.len() == 0,
            r.pets@.len() == 0,
            r.key_events@.len() == 0,
            spec_core_memory_context(r) == Seq::<char>::empty(),
    {
        let r = CoreMemory {
            persona_id: String::from_str(persona_id),
            user_profile: UserProfile::empty(),
            preferences: Preferences::empty(),
            relationships: Vec::new(),
            pets: Vec::new(),
            key_events: Vec::new(),
            shared_memories: SharedMemories::empty(),
            updated_at: String::from_str(updated_at),
        };
        assert(memory_sections(r) =~= Seq::<Seq<char>>::empty());
        r
    }
}

// ---------------------------------------------------------------------------
// Rendering into the system prompt
// ---------------------------------------------------------------------------

/// The text of an optional string, empty when absent.
pub open spec fn or_empty(o: Option<String>) -> Seq<char> {
    match o {
        Some(s) => s@,
        None => Seq::empty(),
    }
}

/// A labelled line for a value that may be absent.
pub open spec fn opt_line(label: Seq<char>, o: Option<String>) -> Seq<Seq<char>> {
    match o {
        Some(v) => seq![label + v@],
        None => Seq::empty(),
    }
}

/// A labelled line listing the items joined by "、", when there are any.
pub open spec fn list_line(label: Seq<char>, v: Seq<String>) -> Seq<Seq<char>> {
    if v.len() == 0 {
        Seq::empty()
    } else {
        seq![label + spec_join(strs_view(v), "、"@)]
    }
}

/// A titled section holding the lines joined by newlines, when there are any.
pub open spec fn section(title: Seq<char>, lines: Seq<Seq<char>>) -> Seq<Seq<char>> {
    if lines.len() == 0 {
        Seq::empty()
    } else {
        seq![title + spec_join(lines, "\n"@)]
    }
}

/// The lines describing the user's profile.
pub open spec fn profile_lines(up: UserProfile) -> Seq<Seq<char>> {
    opt_line("姓名："@, up.name) + opt_line("昵称："@, up.nickname) + opt_line("生日："@, up.birthday)
        + match up.age {
        Some(a) => seq!["年龄："@ + spec_decimal(a as nat)],
        None => Seq::empty(),
    } + opt_line("性别："@, up.gender) + opt_line("职业："@, up.occupation) + opt_line(
        "所在城市："@,
        up.city,
    ) + opt_line("MBTI："@, up.mbti)
}

/// The lines describing the user's preferences.
pub open spec fn preference_lines(p: Preferences) -> Seq<Seq<char>> {
    list_line("兴趣爱好："@, p.hobbies@) + list_line("喜欢的食物："@, p.favorite_foods@) + list_line(
        "喜欢的音乐："@,
        p.favorite_music@,
    ) + list_line("喜欢的电影："@, p.favorite_movies@) + list_line("不喜欢："@, p.dislikes@)
        + opt_line("通常睡觉时间："@, p.sleep_time) + opt_line("通常起床时间："@, p.wake_time)
}

/// One remembered event: title, date and, when known, the feeling.
pub open spec fn event_line(e: KeyEvent) -> Seq<char> {
    let emo = or_empty(e.emotion);
    "· "@ + e.title@ + "（"@ + e.date@ + "）"@ + if emo.len() == 0 {
        Seq::empty()
    } else {
        "[情绪:"@ + emo + "]"@
    }
}

/// One person around the user.
pub open spec fn person_line(r: PersonRef) -> Seq<char> {
    "· "@ + r.name@ + "（"@ + r.relation@ + "）"@ + or_empty(r.notes)
}

/// One pet of the user.
pub open spec fn pet_line(p: PetInfo) -> Seq<char> {
    "· "@ + p.name@ + "（"@ + p.species@ + "）"@ + or_empty(p.notes)
}

/// The lines describing shared memories.
pub open spec fn shared_lines(s: SharedMemories) -> Seq<Seq<char>> {
    list_line("我们的歌："@, s.our_songs@) + list_line("我们的小梗："@, s.inside_jokes@) + list_line(
        "说过的约定："@,
        s.promises@,
    )
}

/// The sections of the rendered memory, in order; empty sections are left out.
pub open spec fn memory_sections(m: CoreMemory) -> Seq<Seq<char>> {
    section("【用户基本信息】\n"@, profile_lines(m.user_profile)) + section(
        "【用户偏好】\n"@,
        preference_lines(m.preferences),
    ) + section("【重要事件】\n"@, m.key_events@.map_values(|e: KeyEvent| event_line(e)))
        + section("【用户身边的人】\n"@, m.relationships@.map_values(|r: PersonRef| person_line(r)))
        + section("【宠物】\n"@, m.pets@.map_values(|p: PetInfo| pet_line(p))) + section(
        "【我们的共同记忆】\n"@,
        shared_lines(m.shared_memories),
    )
}

/// The introduction placed before the remembered facts.
pub open spec fn memory_intro() -> Seq<char> {
    "以下是你记住的关于用户的重要信息，请在对话中自然运用这些信息，不要刻意提到\"我记得\"之类的，而是自然地融入对话：\n\n"@
}

/// The memory as the system prompt shows it: empty when nothing is known,
/// else the introduction and the sections separated by blank lines.
pub open spec fn spec_core_memory_context(m: CoreMemory) -> Seq<char> {
    let parts = memory_sections(m);
    if parts.len() == 0 {
        Seq::empty()
    } else {
        memory_intro() + spec_join(parts, "\n\n"@)
    }
}

proof fn lemma_contains_trans(a: Seq<char>, b: Seq<char>, c: Seq<char>)
    requires
        spec_contains(a, b),
        spec_contains(b, c),
    ensures
        spec_contains(a, c),
{
    let i = choose|i: int| 0 <= i && i + b.len() <= a.len() && #[trigger] a.subrange(i, i + b.len()) == b;
    let j = choose|j: int| 0 <= j && j + c.len() <= b.len() && #[trigger] b.subrange(j, j + c.len()) == c;
    assert(a.subrange(i + j, i + j + c.len()) =~= c);
}

proof fn lemma_contains_in(x: Seq<char>, y: Seq<char>, z: Seq<char>)
    ensures
        spec_contains(x + y + z, y),
{
    assert((x + y + z).subrange(x.len() as int, (x.len() + y.len()) as int) =~= y);
}

/// A joined text contains each of its parts.
proof fn lemma_join_contains(parts: Seq<Seq<char>>, sep: Seq<char>, i: int)
    requires
        0 <= i < parts.len(),
    ensures
        spec_contains(spec_join(parts, sep), parts[i]),
    decreases parts.len(),
{
    if parts.len() == 1 {
        lemma_contains_in(Seq::empty(), parts[0], Seq::empty());
        assert(Seq::<char>::empty() + parts[0] + Seq::<char>::empty() =~= parts[0]);
    } else {
        let j = spec_join(parts.drop_last(), sep);
        if i == parts.len() - 1 {
            lemma_contains_in(j + sep, parts.last(), Seq::empty());
            assert(j + sep + parts.last() + Seq::<char>::empty() =~= spec_join(parts, sep));
        } else {
            lemma_join_contains(parts.drop_last(), sep, i);
            assert(parts.drop_last()[i] == parts[i]);
            lemma_contains_in(Seq::empty(), j, sep + parts.last());
            assert(Seq::<char>::empty() + j + (sep + parts.last()) =~= spec_join(parts, sep));
            lemma_contains_trans(spec_join(parts, sep), j, parts[i]);
        }
    }
}

/// A joined text starts with its first part.
proof fn lemma_join_prefix(parts: Seq<Seq<char>>, sep: Seq<char>)
    requires
        parts.len() > 0,
    ensures
        spec_join(parts, sep).len() >= parts[0].len(),
        spec_join(parts, sep).take(parts[0].len() as int) == parts[0],
    decreases parts.len(),
{
    if parts.len() > 1 {
        lemma_join_prefix(parts.drop_last(), sep);
        let j = spec_join(parts.drop_last(), sep);
        assert(parts.drop_last()[0] == parts[0]);
        assert((j + sep + parts.last()).take(parts[0].len() as int) =~= j.take(parts[0].len() as int));
    }
}

/// The line at index `k` of the profile lines is in the rendered memory.
proof fn lemma_profile_line_shown(m: CoreMemory, k: int)
    requires
        0 <= k < profile_lines(m.user_profile).len(),
    ensures
        spec_contains(spec_core_memory_context(m), profile_lines(m.user_profile)[k]),
        spec_core_memory_context(m).take((memory_intro().len() + "【用户基本信息】\n"@.len()) as int) == memory_intro() + "【用户基本信息】\n"@,
{
    let pl = profile_lines(m.user_profile);
    let title = "【用户基本信息】\n"@;
    let jl = spec_join(pl, "\n"@);
    let s0 = title + jl;
    let parts = memory_sections(m);
    let rest = section("【用户偏好】\n"@, preference_lines(m.preferences)) + section(
        "【重要事件】\n"@,
        m.key_events@.map_values(|e: KeyEvent| event_line(e)),
    ) + section("【用户身边的人】\n"@, m.relationships@.map_values(|r: PersonRef| person_line(r)))
        + section("【宠物】\n"@, m.pets@.map_values(|p: PetInfo| pet_line(p))) + section(
        "【我们的共同记忆】\n"@,
        shared_lines(m.shared_memories),
    );
    assert(parts =~= seq![s0] + rest);
    assert(parts[0] == s0);
    lemma_join_contains(pl, "\n"@, k);
    lemma_contains_in(title, jl, Seq::empty());
    assert(title + jl + Seq::<char>::empty() =~= s0);
    lemma_contains_trans(s0, jl, pl[k]);
    let jp = spec_join(parts, "\n\n"@);
    lemma_join_contains(parts, "\n\n"@, 0);
    lemma_contains_trans(jp, s0, pl[k]);
    let ctx = memory_intro() + jp;
    assert(spec_core_memory_context(m) == ctx);
    lemma_contains_in(memory_intro(), jp, Seq::empty());
    assert(memory_intro() + jp + Seq::<char>::empty() =~= ctx);
    lemma_contains_trans(ctx, jp, pl[k]);
    lemma_join_prefix(parts, "\n\n"@);
    assert(ctx.take((memory_intro().len() + title.len()) as int) =~= memory_intro() + title) by {
        assert(jp.take(s0.len() as int) == s0);
        assert(s0.take(title.len() as int) =~= title);
        assert(forall|q: int| 0 <= q < title.len() ==> jp[q] == jp.take(s0.len() as int)[q]);
    }
}

/// Every known fact of the user's profile appears in the rendered memory as
/// its labelled line; the memory then opens, after its introduction, with
/// the section of basic facts.
pub proof fn law_memory_context_shows_profile(m: CoreMemory)
    ensures
        m.user_profile.name matches Some(v) ==> spec_contains(spec_core_memory_context(m), "姓名："@ + v@),
        m.user_profile.nickname matches Some(v) ==> spec_contains(spec_core_memory_context(m), "昵称："@ + v@),
        m.user_profile.birthday matches Some(v) ==> spec_contains(spec_core_memory_context(m), "生日："@ + v@),
        m.user_profile.age matches Some(v) ==> spec_contains(spec_core_memory_context(m), "年龄："@ + spec_decimal(v as nat)),
        m.user_profile.gender matches Some(v) ==> spec_contains(spec_core_memory_context(m), "性别："@ + v@),
        m.user_profile.occupation matches Some(v) ==> spec_contains(spec_core_memory_context(m), "职业："@ + v@),
        m.user_profile.city matches Some(v) ==> spec_contains(spec_core_memory_context(m), "所在城市："@ + v@),
        m.user_profile.mbti matches Some(v) ==> spec_contains(spec_core_memory_context(m), "MBTI："@ + v@),
        profile_lines(m.user_profile).len() > 0 ==> spec_core_memory_context(m).take(
            (memory_intro().len() + "【用户基本信息】\n"@.len()) as int,
        ) == memory_intro() + "【用户基本信息】\n"@,
{
    let up = m.user_profile;
    assert(m.user_profile.name matches Some(v) ==> spec_contains(spec_core_memory_context(m), "姓名："@ + v@)) by {
        if let Some(v) = m.user_profile.name {
            let line = "姓名："@ + v@;
            let p0 = opt_line("姓名："@, up.name);
            assert(p0[0] == line);
            assert(p0.contains(line));
            lemma_seq_contains_left(p0, opt_line("昵称："@, up.nickname), line);
            lemma_seq_contains_left((p0) + opt_line("昵称："@, up.nickname), opt_line("生日："@, up.birthday), line);
            lemma_seq_contains_left(((p0) + opt_line("昵称："@, up.nickname)) + opt_line("生日："@, up.birthday), match up.age { Some(a) => seq!["年龄："@ + spec_decimal(a as nat)], None => Seq::<Seq<char>>::empty() }, line);
            lemma_seq_contains_left((((p0) + opt_line("昵称："@, up.nickname)) + opt_line("生日："@, up.birthday)) + match up.age { Some(a) => seq!["年龄："@ + spec_decimal(a as nat)], None => Seq::<Seq<char>>::empty() }, opt_line("性别："@, up.gender), line);
            lemma_seq_contains_left(((((p0) + opt_line("昵称："@, up.nickname)) + opt_line("生日："@, up.birthday)) + match up.age { Some(a) => seq!["年龄："@ + spec_decimal(a as nat)], None => Seq::<Seq<char>>::empty() }) + opt_line("性别："@, up.gender), opt_line("职业："@, up.occupation), line);
            lemma_seq_contains_left((((((p0) + opt_line("昵称："@, up.nickname)) + opt_line("生日："@, up.birthday)) + match up.age { Some(a) => seq!["年龄："@ + spec_decimal(a as nat)], None => Seq::<Seq<char>>::empty() }) + opt_line("性别："@, up.gender)) + opt_line("职业："@, up.occupation), opt_line("所在城市："@, up.city), line);
            lemma_seq_contains_left(((((((p0) + opt_line("昵称："@, up.nickname)) + opt_line("生日："@, up.birthday)) + match up.age { Some(a) => seq!["年龄："@ + spec_decimal(a as nat)], None => Seq::<Seq<char>>::empty() }) + opt_line("性别："@, up.gender)) + opt_line("职业："@, up.occupation)) + opt_line("所在城市："@, up.city), opt_line("MBTI："@, up.mbti), line);
            lemma_profile_fact_shown(m, line);
        }
    }
    assert(m.user_profile.nickname matches Some(v) ==> spec_contains(spec_core_memory_context(m), "昵称："@ + v@)) by {
        if let Some(v) = m.user_profile.nickname {
            let line = "昵称："@ + v@;
            let p1 = opt_line("昵称："@, up.nickname);
            assert(p1[0] == line);
            assert(p1.contains(line));
            lemma_seq_contains_right(opt_line("姓名："@, up.name), p1, line);
            lemma_seq_contains_left((opt_line("姓名："@, up.name)) + p1, opt_line("生日："@, up.birthday), line);
            lemma_seq_contains_left(((opt_line("姓名："@, up.name)) + p1) + opt_line("生日："@, up.birthday), match up.age { Some(a) => seq!["年龄："@ + spec_decimal(a as nat)], None => Seq::<Seq<char>>::empty() }, line);
            lemma_seq_contains_left((((opt_line("姓名："@, up.name)) + p1) + opt_line("生日："@, up.birthday)) + match up.age { Some(a) => seq!["年龄："@ + spec_decimal(a as nat)], None => Seq::<Seq<char>>::empty() }, opt_line("性别："@, up.gender), line);
            lemma_seq_contains_left(((((opt_line("姓名："@, up.name)) + p1) + opt_line("生日："@, up.birthday)) + match up.age { Some(a) => seq!["年龄："@ + spec_decimal(a as nat)], None => Seq::<Seq<char>>::empty() }) + opt_line("性别："@, up.gender), opt_line("职业："@, up.occupation), line);
            lemma_seq_contains_left((((((opt_line("姓名："@, up.name)) + p1) + opt_line("生日："@, up.birthday)) + match up.age { Some(a) => seq!["年龄："@ + spec_decimal(a as nat)], None => Seq::<Seq<char>>::empty() }) + opt_line("性别："@, up.gender)) + opt_line("职业："@, up.occupation), opt_line("所在城市："@, up.city), line);
            lemma_seq_contains_left(((((((opt_line("姓名："@, up.name)) + p1) + opt_line("生日："@, up.birthday)) + match up.age { Some(a) => seq!["年龄："@ + spec_decimal(a as nat)], None => Seq::<Seq<char>>::empty() }) + opt_line("性别："@, up.gender)) + opt_line("职业："@, up.occupation)) + opt_line("所在城市："@, up.city), opt_line("MBTI："@, up.mbti), line);
            lemma_profile_fact_shown(m, line);
        }
    }
    assert(m.user_profile.birthday matches Some(v) ==> spec_contains(spec_core_memory_context(m), "生日："@ + v@)) by {
        if let Some(v) = m.user_profile.birthday {
            let line = "生日："@ + v@;
            let p2 = opt_line("生日："@, up.birthday);
            assert(p2[0] == line);
            assert(p2.contains(line));
            lemma_seq_contains_right((opt_line("姓名："@, up.name)) + opt_line("昵称："@, up.nickname), p2, line);
            lemma_seq_contains_left(((opt_line("姓名："@, up.name)) + opt_line("昵称："@, up.nickname)) + p2, match up.age { Some(a) => seq!["年龄："@ + spec_decimal(a as nat)], None => Seq::<Seq<char>>::empty() }, line);
            lemma_seq_contains_left((((opt_line("姓名："@, up.name)) + opt_line("昵称："@, up.nickname)) + p2) + match up.age { Some(a) => seq!["年龄："@ + spec_decimal(a as nat)], None => Seq::<Seq<char>>::empty() }, opt_line("性别："@, up.gender), line);
            lemma_seq_contains_left(((((opt_line("姓名："@, up.name)) + opt_line("昵称："@, up.nickname)) + p2) + match up.age { Some(a) => seq!["年龄："@ + spec_decimal(a as nat)], None => Seq::<Seq<char>>::empty() }) + opt_line("性别："@, up.gender), opt_line("职业："@, up.occupation), line);
            lemma_seq_contains_left((((((opt_line("姓名："@, up.name)) + opt_line("昵称："@, up.nickname)) + p2) + match up.age { Some(a) => seq!["年龄："@ + spec_decimal(a as nat)], None => Seq::<Seq<char>>::empty() }) + opt_line("性别："@, up.gender)) + opt_line("职业："@, up.occupation), opt_line("所在城市："@, up.city), line);
            lemma_seq_contains_left(((((((opt_line("姓名："@, up.name)) + opt_line("昵称："@, up.nickname)) + p2) + match up.age { Some(a) => seq!["年龄："@ + spec_decimal(a as nat)], None => Seq::<Seq<char>>::empty() }) + opt_line("性别："@, up.gender)) + opt_line("职业："@, up.occupation)) + opt_line("所在城市："@, up.city), opt_line("MBTI："@, up.mbti), line);
            lemma_profile_fact_shown(m, line);
        }
    }
    assert(m.user_profile.age matches Some(v) ==> spec_contains(spec_core_memory_context(m), "年龄："@ + spec_decimal(v as nat))) by {
        if let Some(v) = m.user_profile.age {
            let line = "年龄："@ + spec_decimal(v as nat);
            let p3 = match up.age { Some(a) => seq!["年龄："@ + spec_decimal(a as nat)], None => Seq::<Seq<char>>::empty() };
            assert(p3[0] == line);
            assert(p3.contains(line));
            lemma_seq_contains_right(((opt_line("姓名："@, up.name)) + opt_line("昵称："@, up.nickname)) + opt_line("生日："@, up.birthday), p3, line);
            lemma_seq_contains_left((((opt_line("姓名："@, up.name)) + opt_line("昵称："@, up.nickname)) + opt_line("生日："@, up.birthday)) + p3, opt_line("性别："@, up.gender), line);
            lemma_seq_contains_left(((((opt_line("姓名："@, up.name)) + opt_line("昵称："@, up.nickname)) + opt_line("生日："@, up.birthday)) + p3) + opt_line("性别："@, up.gender), opt_line("职业："@, up.occupation), line);
            lemma_seq_contains_left((((((opt_line("姓名："@, up.name)) + opt_line("昵称："@, up.nickname)) + opt_line("生日："@, up.birthday)) + p3) + opt_line("性别："@, up.gender)) + opt_line("职业："@, up.occupation), opt_line("所在城市："@, up.city), line);
            lemma_seq_contains_left(((((((opt_line("姓名："@, up.name)) + opt_line("昵称："@, up.nickname)) + opt_line("生日："@, up.birthday)) + p3) + opt_line("性别："@, up.gender)) + opt_line("职业："@, up.occupation)) + opt_line("所在城市："@, up.city), opt_line("MBTI："@, up.mbti), line);
            lemma_profile_fact_shown(m, line);
        }
    }
    assert(m.user_profile.gender matches Some(v) ==> spec_contains(spec_core_memory_context(m), "性别："@ + v@)) by {
        if let Some(v) = m.user_profile.gender {
            let line = "性别："@ + v@;
            let p4 = opt_line("性别："@, up.gender);
            assert(p4[0] == line);
            assert(p4.contains(line));
            lemma_seq_contains_right((((opt_line("姓名："@, up.name)) + opt_line("昵称："@, up.nickname)) + opt_line("生日："@, up.birthday)) + match up.age { Some(a) => seq!["年龄："@ + spec_decimal(a as nat)], None => Seq::<Seq<char>>::empty() }, p4, line);
            lemma_seq_contains_left(((((opt_line("姓名："@, up.name)) + opt_line("昵称："@, up.nickname)) + opt_line("生日："@, up.birthday)) + match up.age { Some(a) => seq!["年龄："@ + spec_decimal(a as nat)], None => Seq::<Seq<char>>::empty() }) + p4, opt_line("职业："@, up.occupation), line);
            lemma_seq_contains_left((((((opt_line("姓名："@, up.name)) + opt_line("昵称："@, up.nickname)) + opt_line("生日："@, up.birthday)) + match up.age { Some(a) => seq!["年龄："@ + spec_decimal(a as nat)], None => Seq::<Seq<char>>::empty() }) + p4) + opt_line("职业："@, up.occupation), opt_line("所在城市："@, up.city), line);
            lemma_seq_contains_left(((((((opt_line("姓名："@, up.name)) + opt_line("昵称："@, up.nickname)) + opt_line("生日："@, up.birthday)) + match up.age { Some(a) => seq!["年龄："@ + spec_decimal(a as nat)], None => Seq::<Seq<char>>::empty() }) + p4) + opt_line("职业："@, up.occupation)) + opt_line("所在城市："@, up.city), opt_line("MBTI："@, up.mbti), line);
            lemma_profile_fact_shown(m, line);
        }
    }
    assert(m.user_profile.occupation matches Some(v) ==> spec_contains(spec_core_memory_context(m), "职业："@ + v@)) by {
        if let Some(v) = m.user_profile.occupation {
            let line = "职业："@ + v@;
            let p5 = opt_line("职业："@, up.occupation);
            assert(p5[0] == line);
            assert(p5.contains(line));
            lemma_seq_contains_right(((((opt_line("姓名："@, up.name)) + opt_line("昵称："@, up.nickname)) + opt_line("生日："@, up.birthday)) + match up.age { Some(a) => seq!["年龄："@ + spec_decimal(a as nat)], None => Seq::<Seq<char>>::empty() }) + opt_line("性别："@, up.gender), p5, line);
            lemma_seq_contains_left((((((opt_line("姓名："@, up.name)) + opt_line("昵称："@, up.nickname)) + opt_line("生日："@, up.birthday)) + match up.age { Some(a) => seq!["年龄："@ + spec_decimal(a as nat)], None => Seq::<Seq<char>>::empty() }) + opt_line("性别："@, up.gender)) + p5, opt_line("所在城市："@, up.city), line);
            lemma_seq_contains_left(((((((opt_line("姓名："@, up.name)) + opt_line("昵称："@, up.nickname)) + opt_line("生日："@, up.birthday)) + match up.age { Some(a) => seq!["年龄："@ + spec_decimal(a as nat)], None => Seq::<Seq<char>>::empty() }) + opt_line("性别："@, up.gender)) + p5) + opt_line("所在城市："@, up.city), opt_line("MBTI："@, up.mbti), line);
            lemma_profile_fact_shown(m, line);
        }
    }
    assert(m.user_profile.city matches Some(v) ==> spec_contains(spec_core_memory_context(m), "所在城市："@ + v@)) by {
        if let Some(v) = m.user_profile.city {
            let line = "所在城市："@ + v@;
            let p6 = opt_line("所在城市："@, up.city);
            assert(p6[0] == line);
            assert(p6.contains(line));
            lemma_seq_contains_right((((((opt_line("姓名："@, up.name)) + opt_line("昵称："@, up.nickname)) + opt_line("生日："@, up.birthday)) + match up.age { Some(a) => seq!["年龄："@ + spec_decimal(a as nat)], None => Seq::<Seq<char>>::empty() }) + opt_line("性别："@, up.gender)) + opt_line("职业："@, up.occupation), p6, line);
            lemma_seq_contains_left(((((((opt_line("姓名："@, up.name)) + opt_line("昵称："@, up.nickname)) + opt_line("生日："@, up.birthday)) + match up.age { Some(a) => seq!["年龄："@ + spec_decimal(a as nat)], None => Seq::<Seq<char>>::empty() }) + opt_line("性别："@, up.gender)) + opt_line("职业："@, up.occupation)) + p6, opt_line("MBTI："@, up.mbti), line);
            lemma_profile_fact_shown(m, line);
        }
    }
    assert(m.user_profile.mbti matches Some(v) ==> spec_contains(spec_core_memory_context(m), "MBTI："@ + v@)) by {
        if let Some(v) = m.user_profile.mbti {
            let line = "MBTI："@ + v@;
            let p7 = opt_line("MBTI："@, up.mbti);
            assert(p7[0] == line);
            assert(p7.contains(line));
            lemma_seq_contains_right(((((((opt_line("姓名："@, up.name)) + opt_line("昵称："@, up.nickname)) + opt_line("生日："@, up.birthday)) + match up.age { Some(a) => seq!["年龄："@ + spec_decimal(a as nat)], None => Seq::<Seq<char>>::empty() }) + opt_line("性别："@, up.gender)) + opt_line("职业："@, up.occupation)) + opt_line("所在城市："@, up.city), p7, line);
            lemma_profile_fact_shown(m, line);
        }
    }
    if profile_lines(up).len() > 0 {
        lemma_profile_line_shown(m, 0);
    }
}

proof fn lemma_seq_contains_left(a: Seq<Seq<char>>, b: Seq<Seq<char>>, e: Seq<char>)
    requires
        a.contains(e),
    ensures
        (a + b).contains(e),
{
    let k = choose|k: int| 0 <= k < a.len() && a[k] == e;
    assert((a + b)[k] == e);
}

proof fn lemma_seq_contains_right(a: Seq<Seq<char>>, b: Seq<Seq<char>>, e: Seq<char>)
    requires
        b.contains(e),
    ensures
        (a + b).contains(e),
{
    let k = choose|k: int| 0 <= k < b.len() && b[k] == e;
    assert((a + b)[a.len() + k] == e);
}

proof fn lemma_profile_fact_shown(m: CoreMemory, line: Seq<char>)
    requires
        profile_lines(m.user_profile).contains(line),
    ensures
        spec_contains(spec_core_memory_context(m), line),
{
    let pl = profile_lines(m.user_profile);
    let k = choose|k: int| 0 <= k < pl.len() && pl[k] == line;
    lemma_profile_line_shown(m, k);
}

proof fn lemma_section_0_shown(m: CoreMemory, i: int)
    requires
        0 <= i < (profile_lines(m.user_profile)).len(),
    ensures
        spec_contains(spec_core_memory_context(m), (profile_lines(m.user_profile))[i]),
{
    let sk = section("【用户基本信息】\n"@, profile_lines(m.user_profile));
    assert(sk[0] == "【用户基本信息】\n"@ + spec_join(profile_lines(m.user_profile), "\n"@));
    assert(sk.contains("【用户基本信息】\n"@ + spec_join(profile_lines(m.user_profile), "\n"@)));
    lemma_seq_contains_left(sk, section("【用户偏好】\n"@, preference_lines(m.preferences)), "【用户基本信息】\n"@ + spec_join(profile_lines(m.user_profile), "\n"@));
    lemma_seq_contains_left((sk) + section("【用户偏好】\n"@, preference_lines(m.preferences)), section("【重要事件】\n"@, m.key_events@.map_values(|e: KeyEvent| event_line(e))), "【用户基本信息】\n"@ + spec_join(profile_lines(m.user_profile), "\n"@));
    lemma_seq_contains_left(((sk) + section("【用户偏好】\n"@, preference_lines(m.preferences))) + section("【重要事件】\n"@, m.key_events@.map_values(|e: KeyEvent| event_line(e))), section("【用户身边的人】\n"@, m.relationships@.map_values(|r: PersonRef| person_line(r))), "【用户基本信息】\n"@ + spec_join(profile_lines(m.user_profile), "\n"@));
    lemma_seq_contains_left((((sk) + section("【用户偏好】\n"@, preference_lines(m.preferences))) + section("【重要事件】\n"@, m.key_events@.map_values(|e: KeyEvent| event_line(e)))) + section("【用户身边的人】\n"@, m.relationships@.map_values(|r: PersonRef| person_line(r))), section("【宠物】\n"@, m.pets@.map_values(|p: PetInfo| pet_line(p))), "【用户基本信息】\n"@ + spec_join(profile_lines(m.user_profile), "\n"@));
    lemma_seq_contains_left(((((sk) + section("【用户偏好】\n"@, preference_lines(m.preferences))) + section("【重要事件】\n"@, m.key_events@.map_values(|e: KeyEvent| event_line(e)))) + section("【用户身边的人】\n"@, m.relationships@.map_values(|r: PersonRef| person_line(r)))) + section("【宠物】\n"@, m.pets@.map_values(|p: PetInfo| pet_line(p))), section("【我们的共同记忆】\n"@, shared_lines(m.shared_memories)), "【用户基本信息】\n"@ + spec_join(profile_lines(m.user_profile), "\n"@));
    lemma_line_in_section(m, "【用户基本信息】\n"@, profile_lines(m.user_profile), i);
}

proof fn lemma_section_1_shown(m: CoreMemory, i: int)
    requires
        0 <= i < (preference_lines(m.preferences)).len(),
    ensures
        spec_contains(spec_core_memory_context(m), (preference_lines(m.preferences))[i]),
{
    let sk = section("【用户偏好】\n"@, preference_lines(m.preferences));
    assert(sk[0] == "【用户偏好】\n"@ + spec_join(preference_lines(m.preferences), "\n"@));
    assert(sk.contains("【用户偏好】\n"@ + spec_join(preference_lines(m.preferences), "\n"@)));
    lemma_seq_contains_right(section("【用户基本信息】\n"@, profile_lines(m.user_profile)), sk, "【用户偏好】\n"@ + spec_join(preference_lines(m.preferences), "\n"@));
    lemma_seq_contains_left((section("【用户基本信息】\n"@, profile_lines(m.user_profile))) + sk, section("【重要事件】\n"@, m.key_events@.map_values(|e: KeyEvent| event_line(e))), "【用户偏好】\n"@ + spec_join(preference_lines(m.preferences), "\n"@));
    lemma_seq_contains_left(((section("【用户基本信息】\n"@, profile_lines(m.user_profile))) + sk) + section("【重要事件】\n"@, m.key_events@.map_values(|e: KeyEvent| event_line(e))), section("【用户身边的人】\n"@, m.relationships@.map_values(|r: PersonRef| person_line(r))), "【用户偏好】\n"@ + spec_join(preference_lines(m.preferences), "\n"@));
    lemma_seq_contains_left((((section("【用户基本信息】\n"@, profile_lines(m.user_profile))) + sk) + section("【重要事件】\n"@, m.key_events@.map_values(|e: KeyEvent| event_line(e)))) + section("【用户身边的人】\n"@, m.relationships@.map_values(|r: PersonRef| person_line(r))), section("【宠物】\n"@, m.pets@.map_values(|p: PetInfo| pet_line(p))), "【用户偏好】\n"@ + spec_join(preference_lines(m.preferences), "\n"@));
    lemma_seq_contains_left(((((section("【用户基本信息】\n"@, profile_lines(m.user_profile))) + sk) + section("【重要事件】\n"@, m.key_events@.map_values(|e: KeyEvent| event_line(e)))) + section("【用户身边的人】\n"@, m.relationships@.map_values(|r: PersonRef| person_line(r)))) + section("【宠物】\n"@, m.pets@.map_values(|p: PetInfo| pet_line(p))), section("【我们的共同记忆】\n"@, shared_lines(m.shared_memories)), "【用户偏好】\n"@ + spec_join(preference_lines(m.preferences), "\n"@));
    lemma_line_in_section(m, "【用户偏好】\n"@, preference_lines(m.preferences), i);
}

proof fn lemma_section_2_shown(m: CoreMemory, i: int)
    requires
        0 <= i < (m.key_events@.map_values(|e: KeyEvent| event_line(e))).len(),
    ensures
        spec_contains(spec_core_memory_context(m), (m.key_events@.map_values(|e: KeyEvent| event_line(e)))[i]),
{
    let sk = section("【重要事件】\n"@, m.key_events@.map_values(|e: KeyEvent| event_line(e)));
    assert(sk[0] == "【重要事件】\n"@ + spec_join(m.key_events@.map_values(|e: KeyEvent| event_line(e)), "\n"@));
    assert(sk.contains("【重要事件】\n"@ + spec_join(m.key_events@.map_values(|e: KeyEvent| event_line(e)), "\n"@)));
    lemma_seq_contains_right((section("【用户基本信息】\n"@, profile_lines(m.user_profile))) + section("【用户偏好】\n"@, preference_lines(m.preferences)), sk, "【重要事件】\n"@ + spec_join(m.key_events@.map_values(|e: KeyEvent| event_line(e)), "\n"@));
    lemma_seq_contains_left(((section("【用户基本信息】\n"@, profile_lines(m.user_profile))) + section("【用户偏好】\n"@, preference_lines(m.preferences))) + sk, section("【用户身边的人】\n"@, m.relationships@.map_values(|r: PersonRef| person_line(r))), "【重要事件】\n"@ + spec_join(m.key_events@.map_values(|e: KeyEvent| event_line(e)), "\n"@));
    lemma_seq_contains_left((((section("【用户基本信息】\n"@, profile_lines(m.user_profile))) + section("【用户偏好】\n"@, preference_lines(m.preferences))) + sk) + section("【用户身边的人】\n"@, m.relationships@.map_values(|r: PersonRef| person_line(r))), section("【宠物】\n"@, m.pets@.map_values(|p: PetInfo| pet_line(p))), "【重要事件】\n"@ + spec_join(m.key_events@.map_values(|e: KeyEvent| event_line(e)), "\n"@));
    lemma_seq_contains_left(((((section("【用户基本信息】\n"@, profile_lines(m.user_profile))) + section("【用户偏好】\n"@, preference_lines(m.preferences))) + sk) + section("【用户身边的人】\n"@, m.relationships@.map_values(|r: PersonRef| person_line(r)))) + section("【宠物】\n"@, m.pets@.map_values(|p: PetInfo| pet_line(p))), section("【我们的共同记忆】\n"@, shared_lines(m.shared_memories)), "【重要事件】\n"@ + spec_join(m.key_events@.map_values(|e: KeyEvent| event_line(e)), "\n"@));
    lemma_line_in_section(m, "【重要事件】\n"@, m.key_events@.map_values(|e: KeyEvent| event_line(e)), i);
}

proof fn lemma_section_3_shown(m: CoreMemory, i: int)
    requires
        0 <= i < (m.relationships@.map_values(|r: PersonRef| person_line(r))).len(),
    ensures
        spec_contains(spec_core_memory_context(m), (m.relationships@.map_values(|r: PersonRef| person_line(r)))[i]),
{
    let sk = section("【用户身边的人】\n"@, m.relationships@.map_values(|r: PersonRef| person_line(r)));
    assert(sk[0] == "【用户身边的人】\n"@ + spec_join(m.relationships@.map_values(|r: PersonRef| person_line(r)), "\n"@));
    assert(sk.contains("【用户身边的人】\n"@ + spec_join(m.relationships@.map_values(|r: PersonRef| person_line(r)), "\n"@)));
    lemma_seq_contains_right(((section("【用户基本信息】\n"@, profile_lines(m.user_profile))) + section("【用户偏好】\n"@, preference_lines(m.preferences))) + section("【重要事件】\n"@, m.key_events@.map_values(|e: KeyEvent| event_line(e))), sk, "【用户身边的人】\n"@ + spec_join(m.relationships@.map_values(|r: PersonRef| person_line(r)), "\n"@));
    lemma_seq_contains_left((((section("【用户基本信息】\n"@, profile_lines(m.user_profile))) + section("【用户偏好】\n"@, preference_lines(m.preferences))) + section("【重要事件】\n"@, m.key_events@.map_values(|e: KeyEvent| event_line(e)))) + sk, section("【宠物】\n"@, m.pets@.map_values(|p: PetInfo| pet_line(p))), "【用户身边的人】\n"@ + spec_join(m.relationships@.map_values(|r: PersonRef| person_line(r)), "\n"@));
    lemma_seq_contains_left(((((section("【用户基本信息】\n"@, profile_lines(m.user_profile))) + section("【用户偏好】\n"@, preference_lines(m.preferences))) + section("【重要事件】\n"@, m.key_events@.map_values(|e: KeyEvent| event_line(e)))) + sk) + section("【宠物】\n"@, m.pets@.map_values(|p: PetInfo| pet_line(p))), section("【我们的共同记忆】\n"@, shared_lines(m.shared_memories)), "【用户身边的人】\n"@ + spec_join(m.relationships@.map_values(|r: PersonRef| person_line(r)), "\n"@));
    lemma_line_in_section(m, "【用户身边的人】\n"@, m.relationships@.map_values(|r: PersonRef| person_line(r)), i);
}

proof fn lemma_section_4_shown(m: CoreMemory, i: int)
    requires
        0 <= i < (m.pets@.map_values(|p: PetInfo| pet_line(p))).len(),
    ensures
        spec_contains(spec_core_memory_context(m), (m.pets@.map_values(|p: PetInfo| pet_line(p)))[i]),
{
    let sk = section("【宠物】\n"@, m.pets@.map_values(|p: PetInfo| pet_line(p)));
    assert(sk[0] == "【宠物】\n"@ + spec_join(m.pets@.map_values(|p: PetInfo| pet_line(p)), "\n"@));
    assert(sk.contains("【宠物】\n"@ + spec_join(m.pets@.map_values(|p: PetInfo| pet_line(p)), "\n"@)));
    lemma_seq_contains_right((((section("【用户基本信息】\n"@, profile_lines(m.user_profile))) + section("【用户偏好】\n"@, preference_lines(m.preferences))) + section("【重要事件】\n"@, m.key_events@.map_values(|e: KeyEvent| event_line(e)))) + section("【用户身边的人】\n"@, m.relationships@.map_values(|r: PersonRef| person_line(r))), sk, "【宠物】\n"@ + spec_join(m.pets@.map_values(|p: PetInfo| pet_line(p)), "\n"@));
    lemma_seq_contains_left(((((section("【用户基本信息】\n"@, profile_lines(m.user_profile))) + section("【用户偏好】\n"@, preference_lines(m.preferences))) + section("【重要事件】\n"@, m.key_events@.map_values(|e: KeyEvent| event_line(e)))) + section("【用户身边的人】\n"@, m.relationships@.map_values(|r: PersonRef| person_line(r)))) + sk, section("【我们的共同记忆】\n"@, shared_lines(m.shared_memories)), "【宠物】\n"@ + spec_join(m.pets@.map_values(|p: PetInfo| pet_line(p)), "\n"@));
    lemma_line_in_section(m, "【宠物】\n"@, m.pets@.map_values(|p: PetInfo| pet_line(p)), i);
}

proof fn lemma_section_5_shown(m: CoreMemory, i: int)
    requires
        0 <= i < (shared_lines(m.shared_memories)).len(),
    ensures
        spec_contains(spec_core_memory_context(m), (shared_lines(m.shared_memories))[i]),
{
    let sk = section("【我们的共同记忆】\n"@, shared_lines(m.shared_memories));
    assert(sk[0] == "【我们的共同记忆】\n"@ + spec_join(shared_lines(m.shared_memories), "\n"@));
    assert(sk.contains("【我们的共同记忆】\n"@ + spec_join(shared_lines(m.shared_memories), "\n"@)));
    lemma_seq_contains_right(((((section("【用户基本信息】\n"@, profile_lines(m.user_profile))) + section("【用户偏好】\n"@, preference_lines(m.preferences))) + section("【重要事件】\n"@, m.key_events@.map_values(|e: KeyEvent| event_line(e)))) + section("【用户身边的人】\n"@, m.relationships@.map_values(|r: PersonRef| person_line(r)))) + section("【宠物】\n"@, m.pets@.map_values(|p: PetInfo| pet_line(p))), sk, "【我们的共同记忆】\n"@ + spec_join(shared_lines(m.shared_memories), "\n"@));
    lemma_line_in_section(m, "【我们的共同记忆】\n"@, shared_lines(m.shared_memories), i);
}

/// Every preference known about the user appears in the rendered memory:
/// each liked or disliked item, each list as its labelled line, and the
/// usual sleeping and waking times as their labelled lines.
pub proof fn law_memory_context_shows_preferences(m: CoreMemory)
    ensures
        forall|i: int| 0 <= i < m.preferences.hobbies@.len() ==> spec_contains(spec_core_memory_context(m), #[trigger] m.preferences.hobbies@[i]@),
        m.preferences.hobbies@.len() > 0 ==> spec_contains(spec_core_memory_context(m), "兴趣爱好："@ + spec_join(strs_view(m.preferences.hobbies@), "、"@)),
        forall|i: int| 0 <= i < m.preferences.favorite_foods@.len() ==> spec_contains(spec_core_memory_context(m), #[trigger] m.preferences.favorite_foods@[i]@),
        m.preferences.favorite_foods@.len() > 0 ==> spec_contains(spec_core_memory_context(m), "喜欢的食物："@ + spec_join(strs_view(m.preferences.favorite_foods@), "、"@)),
        forall|i: int| 0 <= i < m.preferences.favorite_music@.len() ==> spec_contains(spec_core_memory_context(m), #[trigger] m.preferences.favorite_music@[i]@),
        m.preferences.favorite_music@.len() > 0 ==> spec_contains(spec_core_memory_context(m), "喜欢的音乐："@ + spec_join(strs_view(m.preferences.favorite_music@), "、"@)),
        forall|i: int| 0 <= i < m.preferences.favorite_movies@.len() ==> spec_contains(spec_core_memory_context(m), #[trigger] m.preferences.favorite_movies@[i]@),
        m.preferences.favorite_movies@.len() > 0 ==> spec_contains(spec_core_memory_context(m), "喜欢的电影："@ + spec_join(strs_view(m.preferences.favorite_movies@), "、"@)),
        forall|i: int| 0 <= i < m.preferences.dislikes@.len() ==> spec_contains(spec_core_memory_context(m), #[trigger] m.preferences.dislikes@[i]@),
        m.preferences.dislikes@.len() > 0 ==> spec_contains(spec_core_memory_context(m), "不喜欢："@ + spec_join(strs_view(m.preferences.dislikes@), "、"@)),
        m.preferences.sleep_time matches Some(v) ==> spec_contains(spec_core_memory_context(m), "通常睡觉时间："@ + v@),
        m.preferences.wake_time matches Some(v) ==> spec_contains(spec_core_memory_context(m), "通常起床时间："@ + v@),
{
    lemma_pref_fact_0(m);
    lemma_pref_fact_1(m);
    lemma_pref_fact_2(m);
    lemma_pref_fact_3(m);
    lemma_pref_fact_4(m);
    lemma_pref_fact_5(m);
    lemma_pref_fact_6(m);
    lemma_pref_fact_7(m);
    lemma_pref_fact_8(m);
    lemma_pref_fact_9(m);
    lemma_pref_fact_10(m);
    lemma_pref_fact_11(m);
}

proof fn lemma_pref_fact_0(m: CoreMemory)
    ensures
        m.preferences.hobbies@.len() > 0 ==> spec_contains(spec_core_memory_context(m), "兴趣爱好："@ + spec_join(strs_view(m.preferences.hobbies@), "、"@)),
{
    let p = m.preferences;
    assert(m.preferences.hobbies@.len() > 0 ==> spec_contains(spec_core_memory_context(m), "兴趣爱好："@ + spec_join(strs_view(m.preferences.hobbies@), "、"@))) by {
        if m.preferences.hobbies@.len() > 0 {
            let line = "兴趣爱好："@ + spec_join(strs_view(m.preferences.hobbies@), "、"@);
            let q = list_line("兴趣爱好："@, p.hobbies@);
            assert(q[0] == line);
            assert(q.contains(line));
            lemma_seq_contains_left(q, list_line("喜欢的食物："@, p.favorite_foods@), line);
            lemma_seq_contains_left((q) + list_line("喜欢的食物："@, p.favorite_foods@), list_line("喜欢的音乐："@, p.favorite_music@), line);
            lemma_seq_contains_left(((q) + list_line("喜欢的食物："@, p.favorite_foods@)) + list_line("喜欢的音乐："@, p.favorite_music@), list_line("喜欢的电影："@, p.favorite_movies@), line);
            lemma_seq_contains_left((((q) + list_line("喜欢的食物："@, p.favorite_foods@)) + list_line("喜欢的音乐："@, p.favorite_music@)) + list_line("喜欢的电影："@, p.favorite_movies@), list_line("不喜欢："@, p.dislikes@), line);
            lemma_seq_contains_left(((((q) + list_line("喜欢的食物："@, p.favorite_foods@)) + list_line("喜欢的音乐："@, p.favorite_music@)) + list_line("喜欢的电影："@, p.favorite_movies@)) + list_line("不喜欢："@, p.dislikes@), opt_line("通常睡觉时间："@, p.sleep_time), line);
            lemma_seq_contains_left((((((q) + list_line("喜欢的食物："@, p.favorite_foods@)) + list_line("喜欢的音乐："@, p.favorite_music@)) + list_line("喜欢的电影："@, p.favorite_movies@)) + list_line("不喜欢："@, p.dislikes@)) + opt_line("通常睡觉时间："@, p.sleep_time), opt_line("通常起床时间："@, p.wake_time), line);
            let pl = preference_lines(p);
            let w = choose|w: int| 0 <= w < pl.len() && pl[w] == line;
            lemma_section_1_shown(m, w);
        }
    }
}

proof fn lemma_pref_fact_1(m: CoreMemory)
    ensures
        forall|i: int| 0 <= i < m.preferences.hobbies@.len() ==> spec_contains(spec_core_memory_context(m), #[trigger] m.preferences.hobbies@[i]@),
{
    let p = m.preferences;
    lemma_pref_fact_0(m);
    assert forall|i: int| 0 <= i < m.preferences.hobbies@.len() implies spec_contains(spec_core_memory_context(m), #[trigger] m.preferences.hobbies@[i]@) by {
        let line = "兴趣爱好："@ + spec_join(strs_view(m.preferences.hobbies@), "、"@);
        lemma_join_contains(strs_view(m.preferences.hobbies@), "、"@, i);
        lemma_contains_in("兴趣爱好："@, spec_join(strs_view(m.preferences.hobbies@), "、"@), Seq::empty());
        assert("兴趣爱好："@ + spec_join(strs_view(m.preferences.hobbies@), "、"@) + Seq::<char>::empty() =~= line);
        lemma_contains_trans(line, spec_join(strs_view(m.preferences.hobbies@), "、"@), m.preferences.hobbies@[i]@);
        lemma_contains_trans(spec_core_memory_context(m), line, m.preferences.hobbies@[i]@);
    }
}

proof fn lemma_pref_fact_2(m: CoreMemory)
    ensures
        m.preferences.favorite_foods@.len() > 0 ==> spec_contains(spec_core_memory_context(m), "喜欢的食物："@ + spec_join(strs_view(m.preferences.favorite_foods@), "、"@)),
{
    let p = m.preferences;
    assert(m.preferences.favorite_foods@.len() > 0 ==> spec_contains(spec_core_memory_context(m), "喜欢的食物："@ + spec_join(strs_view(m.preferences.favorite_foods@), "、"@))) by {
        if m.preferences.favorite_foods@.len() > 0 {
            let line = "喜欢的食物："@ + spec_join(strs_view(m.preferences.favorite_foods@), "、"@);
            let q = list_line("喜欢的食物："@, p.favorite_foods@);
            assert(q[0] == line);
            assert(q.contains(line));
            lemma_seq_contains_right(list_line("兴趣爱好："@, p.hobbies@), q, line);
            lemma_seq_contains_left((list_line("兴趣爱好："@, p.hobbies@)) + q, list_line("喜欢的音乐："@, p.favorite_music@), line);
            lemma_seq_contains_left(((list_line("兴趣爱好："@, p.hobbies@)) + q) + list_line("喜欢的音乐："@, p.favorite_music@), list_line("喜欢的电影："@, p.favorite_movies@), line);
            lemma_seq_contains_left((((list_line("兴趣爱好："@, p.hobbies@)) + q) + list_line("喜欢的音乐："@, p.favorite_music@)) + list_line("喜欢的电影："@, p.favorite_movies@), list_line("不喜欢："@, p.dislikes@), line);
            lemma_seq_contains_left(((((list_line("兴趣爱好："@, p.hobbies@)) + q) + list_line("喜欢的音乐："@, p.favorite_music@)) + list_line("喜欢的电影："@, p.favorite_movies@)) + list_line("不喜欢："@, p.dislikes@), opt_line("通常睡觉时间："@, p.sleep_time), line);
            lemma_seq_contains_left((((((list_line("兴趣爱好："@, p.hobbies@)) + q) + list_line("喜欢的音乐："@, p.favorite_music@)) + list_line("喜欢的电影："@, p.favorite_movies@)) + list_line("不喜欢："@, p.dislikes@)) + opt_line("通常睡觉时间："@, p.sleep_time), opt_line("通常起床时间："@, p.wake_time), line);
            let pl = preference_lines(p);
            let w = choose|w: int| 0 <= w < pl.len() && pl[w] == line;
            lemma_section_1_shown(m, w);
        }
    }
}

proof fn lemma_pref_fact_3(m: CoreMemory)
    ensures
        forall|i: int| 0 <= i < m.preferences.favorite_foods@.len() ==> spec_contains(spec_core_memory_context(m), #[trigger] m.preferences.favorite_foods@[i]@),
{
    let p = m.preferences;
    lemma_pref_fact_2(m);
    assert forall|i: int| 0 <= i < m.preferences.favorite_foods@.len() implies spec_contains(spec_core_memory_context(m), #[trigger] m.preferences.favorite_foods@[i]@) by {
        let line = "喜欢的食物："@ + spec_join(strs_view(m.preferences.favorite_foods@), "、"@);
        lemma_join_contains(strs_view(m.preferences.favorite_foods@), "、"@, i);
        lemma_contains_in("喜欢的食物："@, spec_join(strs_view(m.preferences.favorite_foods@), "、"@), Seq::empty());
        assert("喜欢的食物："@ + spec_join(strs_view(m.preferences.favorite_foods@), "、"@) + Seq::<char>::empty() =~= line);
        lemma_contains_trans(line, spec_join(strs_view(m.preferences.favorite_foods@), "、"@), m.preferences.favorite_foods@[i]@);
        lemma_contains_trans(spec_core_memory_context(m), line, m.preferences.favorite_foods@[i]@);
    }
}

proof fn lemma_pref_fact_4(m: CoreMemory)
    ensures
        m.preferences.favorite_music@.len() > 0 ==> spec_contains(spec_core_memory_context(m), "喜欢的音乐："@ + spec_join(strs_view(m.preferences.favorite_music@), "、"@)),
{
    let p = m.preferences;
    assert(m.preferences.favorite_music@.len() > 0 ==> spec_contains(spec_core_memory_context(m), "喜欢的音乐："@ + spec_join(strs_view(m.preferences.favorite_music@), "、"@))) by {
        if m.preferences.favorite_music@.len() > 0 {
            let line = "喜欢的音乐："@ + spec_join(strs_view(m.preferences.favorite_music@), "、"@);
            let q = list_line("喜欢的音乐："@, p.favorite_music@);
            assert(q[0] == line);
            assert(q.contains(line));
            lemma_seq_contains_right((list_line("兴趣爱好："@, p.hobbies@)) + list_line("喜欢的食物："@, p.favorite_foods@), q, line);
            lemma_seq_contains_left(((list_line("兴趣爱好："@, p.hobbies@)) + list_line("喜欢的食物："@, p.favorite_foods@)) + q, list_line("喜欢的电影："@, p.favorite_movies@), line);
            lemma_seq_contains_left((((list_line("兴趣爱好："@, p.hobbies@)) + list_line("喜欢的食物："@, p.favorite_foods@)) + q) + list_line("喜欢的电影："@, p.favorite_movies@), list_line("不喜欢："@, p.dislikes@), line);
            lemma_seq_contains_left(((((list_line("兴趣爱好："@, p.hobbies@)) + list_line("喜欢的食物："@, p.favorite_foods@)) + q) + list_line("喜欢的电影："@, p.favorite_movies@)) + list_line("不喜欢："@, p.dislikes@), opt_line("通常睡觉时间："@, p.sleep_time), line);
            lemma_seq_contains_left((((((list_line("兴趣爱好："@, p.hobbies@)) + list_line("喜欢的食物："@, p.favorite_foods@)) + q) + list_line("喜欢的电影："@, p.favorite_movies@)) + list_line("不喜欢："@, p.dislikes@)) + opt_line("通常睡觉时间："@, p.sleep_time), opt_line("通常起床时间："@, p.wake_time), line);
            let pl = preference_lines(p);
            let w = choose|w: int| 0 <= w < pl.len() && pl[w] == line;
            lemma_section_1_shown(m, w);
        }
    }
}

proof fn lemma_pref_fact_5(m: CoreMemory)
    ensures
        forall|i: int| 0 <= i < m.preferences.favorite_music@.len() ==> spec_contains(spec_core_memory_context(m), #[trigger] m.preferences.favorite_music@[i]@),
{
    let p = m.preferences;
    lemma_pref_fact_4(m);
    assert forall|i: int| 0 <= i < m.preferences.favorite_music@.len() implies spec_contains(spec_core_memory_context(m), #[trigger] m.preferences.favorite_music@[i]@) by {
        let line = "喜欢的音乐："@ + spec_join(strs_view(m.preferences.favorite_music@), "、"@);
        lemma_join_contains(strs_view(m.preferences.favorite_music@), "、"@, i);
        lemma_contains_in("喜欢的音乐："@, spec_join(strs_view(m.preferences.favorite_music@), "、"@), Seq::empty());
        assert("喜欢的音乐："@ + spec_join(strs_view(m.preferences.favorite_music@), "、"@) + Seq::<char>::empty() =~= line);
        lemma_contains_trans(line, spec_join(strs_view(m.preferences.favorite_music@), "、"@), m.preferences.favorite_music@[i]@);
        lemma_contains_trans(spec_core_memory_context(m), line, m.preferences.favorite_music@[i]@);
    }
}

proof fn lemma_pref_fact_6(m: CoreMemory)
    ensures
        m.preferences.favorite_movies@.len() > 0 ==> spec_contains(spec_core_memory_context(m), "喜欢的电影："@ + spec_join(strs_view(m.preferences.favorite_movies@), "、"@)),
{
    let p = m.preferences;
    assert(m.preferences.favorite_movies@.len() > 0 ==> spec_contains(spec_core_memory_context(m), "喜欢的电影："@ + spec_join(strs_view(m.preferences.favorite_movies@), "、"@))) by {
        if m.preferences.favorite_movies@.len() > 0 {
            let line = "喜欢的电影："@ + spec_join(strs_view(m.preferences.favorite_movies@), "、"@);
            let q = list_line("喜欢的电影："@, p.favorite_movies@);
            assert(q[0] == line);
            assert(q.contains(line));
            lemma_seq_contains_right(((list_line("兴趣爱好："@, p.hobbies@)) + list_line("喜欢的食物："@, p.favorite_foods@)) + list_line("喜欢的音乐："@, p.favorite_music@), q, line);
            lemma_seq_contains_left((((list_line("兴趣爱好："@, p.hobbies@)) + list_line("喜欢的食物："@, p.favorite_foods@)) + list_line("喜欢的音乐："@, p.favorite_music@)) + q, list_line("不喜欢："@, p.dislikes@), line);
            lemma_seq_contains_left(((((list_line("兴趣爱好："@, p.hobbies@)) + list_line("喜欢的食物："@, p.favorite_foods@)) + list_line("喜欢的音乐："@, p.favorite_music@)) + q) + list_line("不喜欢："@, p.dislikes@), opt_line("通常睡觉时间："@, p.sleep_time), line);
            lemma_seq_contains_left((((((list_line("兴趣爱好："@, p.hobbies@)) + list_line("喜欢的食物："@, p.favorite_foods@)) + list_line("喜欢的音乐："@, p.favorite_music@)) + q) + list_line("不喜欢："@, p.dislikes@)) + opt_line("通常睡觉时间："@, p.sleep_time), opt_line("通常起床时间："@, p.wake_time), line);
            let pl = preference_lines(p);
            let w = choose|w: int| 0 <= w < pl.len() && pl[w] == line;
            lemma_section_1_shown(m, w);
        }
    }
}

proof fn lemma_pref_fact_7(m: CoreMemory)
    ensures
        forall|i: int| 0 <= i < m.preferences.favorite_movies@.len() ==> spec_contains(spec_core_memory_context(m), #[trigger] m.preferences.favorite_movies@[i]@),
{
    let p = m.preferences;
    lemma_pref_fact_6(m);
    assert forall|i: int| 0 <= i < m.preferences.favorite_movies@.len() implies spec_contains(spec_core_memory_context(m), #[trigger] m.preferences.favorite_movies@[i]@) by {
        let line = "喜欢的电影："@ + spec_join(strs_view(m.preferences.favorite_movies@), "、"@);
        lemma_join_contains(strs_view(m.preferences.favorite_movies@), "、"@, i);
        lemma_contains_in("喜欢的电影："@, spec_join(strs_view(m.preferences.favorite_movies@), "、"@), Seq::empty());
        assert("喜欢的电影："@ + spec_join(strs_view(m.preferences.favorite_movies@), "、"@) + Seq::<char>::empty() =~= line);
        lemma_contains_trans(line, spec_join(strs_view(m.preferences.favorite_movies@), "、"@), m.preferences.favorite_movies@[i]@);
        lemma_contains_trans(spec_core_memory_context(m), line, m.preferences.favorite_movies@[i]@);
    }
}

proof fn lemma_pref_fact_8(m: CoreMemory)
    ensures
        m.preferences.dislikes@.len() > 0 ==> spec_contains(spec_core_memory_context(m), "不喜欢："@ + spec_join(strs_view(m.preferences.dislikes@), "、"@)),
{
    let p = m.preferences;
    assert(m.preferences.dislikes@.len() > 0 ==> spec_contains(spec_core_memory_context(m), "不喜欢："@ + spec_join(strs_view(m.preferences.dislikes@), "、"@))) by {
        if m.preferences.dislikes@.len() > 0 {
            let line = "不喜欢："@ + spec_join(strs_view(m.preferences.dislikes@), "、"@);
            let q = list_line("不喜欢："@, p.dislikes@);
            assert(q[0] == line);
            assert(q.contains(line));
            lemma_seq_contains_right((((list_line("兴趣爱好："@, p.hobbies@)) + list_line("喜欢的食物："@, p.favorite_foods@)) + list_line("喜欢的音乐："@, p.favorite_music@)) + list_line("喜欢的电影："@, p.favorite_movies@), q, line);
            lemma_seq_contains_left(((((list_line("兴趣爱好："@, p.hobbies@)) + list_line("喜欢的食物："@, p.favorite_foods@)) + list_line("喜欢的音乐："@, p.favorite_music@)) + list_line("喜欢的电影："@, p.favorite_movies@)) + q, opt_line("通常睡觉时间："@, p.sleep_time), line);
            lemma_seq_contains_left((((((list_line("兴趣爱好："@, p.hobbies@)) + list_line("喜欢的食物："@, p.favorite_foods@)) + list_line("喜欢的音乐："@, p.favorite_music@)) + list_line("喜欢的电影："@, p.favorite_movies@)) + q) + opt_line("通常睡觉时间："@, p.sleep_time), opt_line("通常起床时间："@, p.wake_time), line);
            let pl = preference_lines(p);
            let w = choose|w: int| 0 <= w < pl.len() && pl[w] == line;
            lemma_section_1_shown(m, w);
        }
    }
}

proof fn lemma_pref_fact_9(m: CoreMemory)
    ensures
        forall|i: int| 0 <= i < m.preferences.dislikes@.len() ==> spec_contains(spec_core_memory_context(m), #[trigger] m.preferences.dislikes@[i]@),
{
    let p = m.preferences;
    lemma_pref_fact_8(m);
    assert forall|i: int| 0 <= i < m.preferences.dislikes@.len() implies spec_contains(spec_core_memory_context(m), #[trigger] m.preferences.dislikes@[i]@) by {
        let line = "不喜欢："@ + spec_join(strs_view(m.preferences.dislikes@), "、"@);
        lemma_join_contains(strs_view(m.preferences.dislikes@), "、"@, i);
        lemma_contains_in("不喜欢："@, spec_join(strs_view(m.preferences.dislikes@), "、"@), Seq::empty());
        assert("不喜欢："@ + spec_join(strs_view(m.preferences.dislikes@), "、"@) + Seq::<char>::empty() =~= line);
        lemma_contains_trans(line, spec_join(strs_view(m.preferences.dislikes@), "、"@), m.preferences.dislikes@[i]@);
        lemma_contains_trans(spec_core_memory_context(m), line, m.preferences.dislikes@[i]@);
    }
}

proof fn lemma_pref_fact_10(m: CoreMemory)
    ensures
        m.preferences.sleep_time matches Some(v) ==> spec_contains(spec_core_memory_context(m), "通常睡觉时间："@ + v@),
{
    let p = m.preferences;
    assert(m.preferences.sleep_time matches Some(v) ==> spec_contains(spec_core_memory_context(m), "通常睡觉时间："@ + v@)) by {
        if let Some(v) = m.preferences.sleep_time {
            let line = "通常睡觉时间："@ + v@;
            let q = opt_line("通常睡觉时间："@, p.sleep_time);
            assert(q[0] == line);
            assert(q.contains(line));
            lemma_seq_contains_right(((((list_line("兴趣爱好："@, p.hobbies@)) + list_line("喜欢的食物："@, p.favorite_foods@)) + list_line("喜欢的音乐："@, p.favorite_music@)) + list_line("喜欢的电影："@, p.favorite_movies@)) + list_line("不喜欢："@, p.dislikes@), q, line);
            lemma_seq_contains_left((((((list_line("兴趣爱好："@, p.hobbies@)) + list_line("喜欢的食物："@, p.favorite_foods@)) + list_line("喜欢的音乐："@, p.favorite_music@)) + list_line("喜欢的电影："@, p.favorite_movies@)) + list_line("不喜欢："@, p.dislikes@)) + q, opt_line("通常起床时间："@, p.wake_time), line);
            let pl = preference_lines(p);
            let w = choose|w: int| 0 <= w < pl.len() && pl[w] == line;
            lemma_section_1_shown(m, w);
        }
    }
}

proof fn lemma_pref_fact_11(m: CoreMemory)
    ensures
        m.preferences.wake_time matches Some(v) ==> spec_contains(spec_core_memory_context(m), "通常起床时间："@ + v@),
{
    let p = m.preferences;
    assert(m.preferences.wake_time matches Some(v) ==> spec_contains(spec_core_memory_context(m), "通常起床时间："@ + v@)) by {
        if let Some(v) = m.preferences.wake_time {
            let line = "通常起床时间："@ + v@;
            let q = opt_line("通常起床时间："@, p.wake_time);
            assert(q[0] == line);
            assert(q.contains(line));
            lemma_seq_contains_right((((((list_line("兴趣爱好："@, p.hobbies@)) + list_line("喜欢的食物："@, p.favorite_foods@)) + list_line("喜欢的音乐："@, p.favorite_music@)) + list_line("喜欢的电影："@, p.favorite_movies@)) + list_line("不喜欢："@, p.dislikes@)) + opt_line("通常睡觉时间："@, p.sleep_time), q, line);
            let pl = preference_lines(p);
            let w = choose|w: int| 0 <= w < pl.len() && pl[w] == line;
            lemma_section_1_shown(m, w);
        }
    }
}

/// Every remembered event, person and pet appears in the rendered memory:
/// the event by its title, the person and the pet by their names.
pub proof fn law_memory_context_shows_records(m: CoreMemory)
    ensures
        forall|i: int| 0 <= i < m.key_events@.len() ==> spec_contains(spec_core_memory_context(m), (#[trigger] m.key_events@[i]).title@),
        forall|i: int| 0 <= i < m.relationships@.len() ==> spec_contains(spec_core_memory_context(m), (#[trigger] m.relationships@[i]).name@),
        forall|i: int| 0 <= i < m.pets@.len() ==> spec_contains(spec_core_memory_context(m), (#[trigger] m.pets@[i]).name@),
{
    assert forall|i: int| 0 <= i < m.key_events@.len() implies spec_contains(spec_core_memory_context(m), (#[trigger] m.key_events@[i]).title@) by {
        let e = m.key_events@[i];
        let l = event_line(e);
        lemma_section_2_shown(m, i);
        let emo = or_empty(e.emotion);
        let tail = "（"@ + e.date@ + "）"@ + if emo.len() == 0 { Seq::empty() } else { "[情绪:"@ + emo + "]"@ };
        assert(l =~= "· "@ + e.title@ + tail);
        lemma_contains_in("· "@, e.title@, tail);
        lemma_contains_trans(spec_core_memory_context(m), l, e.title@);
    }
    assert forall|i: int| 0 <= i < m.relationships@.len() implies spec_contains(spec_core_memory_context(m), (#[trigger] m.relationships@[i]).name@) by {
        let r = m.relationships@[i];
        let l = person_line(r);
        lemma_section_3_shown(m, i);
        let tail = "（"@ + r.relation@ + "）"@ + or_empty(r.notes);
        assert(l =~= "· "@ + r.name@ + tail);
        lemma_contains_in("· "@, r.name@, tail);
        lemma_contains_trans(spec_core_memory_context(m), l, r.name@);
    }
    assert forall|i: int| 0 <= i < m.pets@.len() implies spec_contains(spec_core_memory_context(m), (#[trigger] m.pets@[i]).name@) by {
        let q = m.pets@[i];
        let l = pet_line(q);
        lemma_section_4_shown(m, i);
        let tail = "（"@ + q.species@ + "）"@ + or_empty(q.notes);
        assert(l =~= "· "@ + q.name@ + tail);
        lemma_contains_in("· "@, q.name@, tail);
        lemma_contains_trans(spec_core_memory_context(m), l, q.name@);
    }
}

/// A line of a section present in the memory is in the rendered memory.
proof fn lemma_line_in_section(m: CoreMemory, title: Seq<char>, lines: Seq<Seq<char>>, k: int)
    requires
        memory_sections(m).contains(title + spec_join(lines, "\n"@)),
        0 <= k < lines.len(),
    ensures
        spec_contains(spec_core_memory_context(m), lines[k]),
{
    let parts = memory_sections(m);
    let s0 = title + spec_join(lines, "\n"@);
    let w = choose|w: int| 0 <= w < parts.len() && parts[w] == s0;
    lemma_join_contains(lines, "\n"@, k);
    lemma_contains_in(title, spec_join(lines, "\n"@), Seq::empty());
    assert(title + spec_join(lines, "\n"@) + Seq::<char>::empty() =~= s0);
    lemma_contains_trans(s0, spec_join(lines, "\n"@), lines[k]);
    let jp = spec_join(parts, "\n\n"@);
    lemma_join_contains(parts, "\n\n"@, w);
    lemma_contains_trans(jp, s0, lines[k]);
    let ctx = memory_intro() + jp;
    assert(spec_core_memory_context(m) == ctx);
    lemma_contains_in(memory_intro(), jp, Seq::empty());
    assert(memory_intro() + jp + Seq::<char>::empty() =~= ctx);
    lemma_contains_trans(ctx, jp, lines[k]);
}

/// Every shared memory appears in the rendered memory: each song, inside
/// joke and promise, and each list as its labelled line.
pub proof fn law_memory_context_shows_shared(m: CoreMemory)
    ensures
        m.shared_memories.our_songs@.len() > 0 ==> spec_contains(spec_core_memory_context(m), "我们的歌："@ + spec_join(strs_view(m.shared_memories.our_songs@), "、"@)),
        forall|i: int| 0 <= i < m.shared_memories.our_songs@.len() ==> spec_contains(spec_core_memory_context(m), #[trigger] m.shared_memories.our_songs@[i]@),
        m.shared_memories.inside_jokes@.len() > 0 ==> spec_contains(spec_core_memory_context(m), "我们的小梗："@ + spec_join(strs_view(m.shared_memories.inside_jokes@), "、"@)),
        forall|i: int| 0 <= i < m.shared_memories.inside_jokes@.len() ==> spec_contains(spec_core_memory_context(m), #[trigger] m.shared_memories.inside_jokes@[i]@),
        m.shared_memories.promises@.len() > 0 ==> spec_contains(spec_core_memory_context(m), "说过的约定："@ + spec_join(strs_view(m.shared_memories.promises@), "、"@)),
        forall|i: int| 0 <= i < m.shared_memories.promises@.len() ==> spec_contains(spec_core_memory_context(m), #[trigger] m.shared_memories.promises@[i]@),
{
    lemma_shared_fact_0(m);
    lemma_shared_fact_1(m);
    lemma_shared_fact_2(m);
}

proof fn lemma_shared_fact_0(m: CoreMemory)
    ensures
        m.shared_memories.our_songs@.len() > 0 ==> spec_contains(spec_core_memory_context(m), "我们的歌："@ + spec_join(strs_view(m.shared_memories.our_songs@), "、"@)),
        forall|i: int| 0 <= i < m.shared_memories.our_songs@.len() ==> spec_contains(spec_core_memory_context(m), #[trigger] m.shared_memories.our_songs@[i]@),
{
    let sh = m.shared_memories;
    let line = "我们的歌："@ + spec_join(strs_view(m.shared_memories.our_songs@), "、"@);
    if m.shared_memories.our_songs@.len() > 0 {
        let q = list_line("我们的歌："@, sh.our_songs@);
        assert(q[0] == line);
        assert(q.contains(line));
        lemma_seq_contains_left(q, list_line("我们的小梗："@, sh.inside_jokes@), line);
        lemma_seq_contains_left((q) + list_line("我们的小梗："@, sh.inside_jokes@), list_line("说过的约定："@, sh.promises@), line);
        let sl = shared_lines(sh);
        let w = choose|w: int| 0 <= w < sl.len() && sl[w] == line;
        lemma_section_5_shown(m, w);
    }
    assert forall|i: int| 0 <= i < m.shared_memories.our_songs@.len() implies spec_contains(spec_core_memory_context(m), #[trigger] m.shared_memories.our_songs@[i]@) by {
        lemma_join_contains(strs_view(m.shared_memories.our_songs@), "、"@, i);
        lemma_contains_in("我们的歌："@, spec_join(strs_view(m.shared_memories.our_songs@), "、"@), Seq::empty());
        assert("我们的歌："@ + spec_join(strs_view(m.shared_memories.our_songs@), "、"@) + Seq::<char>::empty() =~= line);
        lemma_contains_trans(line, spec_join(strs_view(m.shared_memories.our_songs@), "、"@), m.shared_memories.our_songs@[i]@);
        lemma_contains_trans(spec_core_memory_context(m), line, m.shared_memories.our_songs@[i]@);
    }
}

proof fn lemma_shared_fact_1(m: CoreMemory)
    ensures
        m.shared_memories.inside_jokes@.len() > 0 ==> spec_contains(spec_core_memory_context(m), "我们的小梗："@ + spec_join(strs_view(m.shared_memories.inside_jokes@), "、"@)),
        forall|i: int| 0 <= i < m.shared_memories.inside_jokes@.len() ==> spec_contains(spec_core_memory_context(m), #[trigger] m.shared_memories.inside_jokes@[i]@),
{
    let sh = m.shared_memories;
    let line = "我们的小梗："@ + spec_join(strs_view(m.shared_memories.inside_jokes@), "、"@);
    if m.shared_memories.inside_jokes@.len() > 0 {
        let q = list_line("我们的小梗："@, sh.inside_jokes@);
        assert(q[0] == line);
        assert(q.contains(line));
        lemma_seq_contains_right(list_line("我们的歌："@, sh.our_songs@), q, line);
        lemma_seq_contains_left((list_line("我们的歌："@, sh.our_songs@)) + q, list_line("说过的约定："@, sh.promises@), line);
        let sl = shared_lines(sh);
        let w = choose|w: int| 0 <= w < sl.len() && sl[w] == line;
        lemma_section_5_shown(m, w);
    }
    assert forall|i: int| 0 <= i < m.shared_memories.inside_jokes@.len() implies spec_contains(spec_core_memory_context(m), #[trigger] m.shared_memories.inside_jokes@[i]@) by {
        lemma_join_contains(strs_view(m.shared_memories.inside_jokes@), "、"@, i);
        lemma_contains_in("我们的小梗："@, spec_join(strs_view(m.shared_memories.inside_jokes@), "、"@), Seq::empty());
        assert("我们的小梗："@ + spec_join(strs_view(m.shared_memories.inside_jokes@), "、"@) + Seq::<char>::empty() =~= line);
        lemma_contains_trans(line, spec_join(strs_view(m.shared_memories.inside_jokes@), "、"@), m.shared_memories.inside_jokes@[i]@);
        lemma_contains_trans(spec_core_memory_context(m), line, m.shared_memories.inside_jokes@[i]@);
    }
}

proof fn lemma_shared_fact_2(m: CoreMemory)
    ensures
        m.shared_memories.promises@.len() > 0 ==> spec_contains(spec_core_memory_context(m), "说过的约定："@ + spec_join(strs_view(m.shared_memories.promises@), "、"@)),
        forall|i: int| 0 <= i < m.shared_memories.promises@.len() ==> spec_contains(spec_core_memory_context(m), #[trigger] m.shared_memories.promises@[i]@),
{
    let sh = m.shared_memories;
    let line = "说过的约定："@ + spec_join(strs_view(m.shared_memories.promises@), "、"@);
    if m.shared_memories.promises@.len() > 0 {
        let q = list_line("说过的约定："@, sh.promises@);
        assert(q[0] == line);
        assert(q.contains(line));
        lemma_seq_contains_right((list_line("我们的歌："@, sh.our_songs@)) + list_line("我们的小梗："@, sh.inside_jokes@), q, line);
        let sl = shared_lines(sh);
        let w = choose|w: int| 0 <= w < sl.len() && sl[w] == line;
        lemma_section_5_shown(m, w);
    }
    assert forall|i: int| 0 <= i < m.shared_memories.promises@.len() implies spec_contains(spec_core_memory_context(m), #[trigger] m.shared_memories.promises@[i]@) by {
        lemma_join_contains(strs_view(m.shared_memories.promises@), "、"@, i);
        lemma_contains_in("说过的约定："@, spec_join(strs_view(m.shared_memories.promises@), "、"@), Seq::empty());
        assert("说过的约定："@ + spec_join(strs_view(m.shared_memories.promises@), "、"@) + Seq::<char>::empty() =~= line);
        lemma_contains_trans(line, spec_join(strs_view(m.shared_memories.promises@), "、"@), m.shared_memories.promises@[i]@);
        lemma_contains_trans(spec_core_memory_context(m), line, m.shared_memories.promises@[i]@);
    }
}

/// Concatenates two strings.
pub fn concat_str(a: &str, b: &str) -> (r: String)
    ensures
        r@ == a@ + b@,
{
    let mut r = String::from_str(a);
    r.append(b);
    r
}

fn push_opt_line(lines: &mut Vec<String>, label: &str, o: &Option<String>)
    ensures
        strs_view(final(lines)@) == strs_view(old(lines)@) + opt_line(label@, *o),
{
    match o {
        Some(v) => {
            lines.push(concat_str(label, v.as_str()));
        },
        None => {},
    }
    assert(strs_view(lines@) =~= strs_view(old(lines)@) + opt_line(label@, *o));
}

fn push_list_line(lines: &mut Vec<String>, label: &str, v: &Vec<String>)
    ensures
        strs_view(final(lines)@) == strs_view(old(lines)@) + list_line(label@, v@),
{
    if v.len() > 0 {
        let j = join_strs(v, "、");
        lines.push(concat_str(label, j.as_str()));
    }
    assert(strs_view(lines@) =~= strs_view(old(lines)@) + list_line(label@, v@));
}

fn push_section(parts: &mut Vec<String>, title: &str, lines: &Vec<String>)
    ensures
        strs_view(final(parts)@) == strs_view(old(parts)@) + section(title@, strs_view(lines@)),
{
    if lines.len() > 0 {
        let j = join_strs(lines, "\n");
        parts.push(concat_str(title, j.as_str()));
    }
    assert(strs_view(parts@) =~= strs_view(old(parts)@) + section(title@, strs_view(lines@)));
}

fn opt_text(o: &Option<String>) -> (r: &str)
    ensures
        r@ == or_empty(*o),
{
    match o {
        Some(s) => s.as_str(),
        None => {
            proof {
                reveal_strlit("");
            }
            ""
        },
    }
}

fn render_event(e: &KeyEvent) -> (r: String)
    ensures
        r@ == event_line(*e),
{
    let mut s = String::from_str("· ");
    s.append(e.title.as_str());
    s.append("（");
    s.append(e.date.as_str());
    s.append("）");
    let emo = opt_text(&e.emotion);
    if !emo.is_empty() {
        s.append("[情绪:");
        s.append(emo);
        s.append("]");
    }
    assert(s@ =~= event_line(*e));
    s
}

fn render_person(r: &PersonRef) -> (s: String)
    ensures
        s@ == person_line(*r),
{
    let mut s = String::from_str("· ");
    s.append(r.name.as_str());
    s.append("（");
    s.append(r.relation.as_str());
    s.append("）");
    s.append(opt_text(&r.notes));
    assert(s@ =~= person_line(*r));
    s
}

fn render_pet(p: &PetInfo) -> (s: String)
    ensures
        s@ == pet_line(*p),
{
    let mut s = String::from_str("· ");
    s.append(p.name.as_str());
    s.append("（");
    s.append(p.species.as_str());
    s.append("）");
    s.append(opt_text(&p.notes));
    assert(s@ =~= pet_line(*p));
    s
}

/// Renders the memory for the system prompt.
pub fn build_core_memory_context(mem: &CoreMemory) -> (r: String)
    ensures
        r@ == spec_core_memory_context(*mem),
{
    let mut parts: Vec<String> = Vec::new();

    let up = &mem.user_profile;
    let mut profile: Vec<String> = Vec::new();
    push_opt_line(&mut profile, "姓名：", &up.name);
    push_opt_line(&mut profile, "昵称：", &up.nickname);
    push_opt_line(&mut profile, "生日：", &up.birthday);
    let ghost before_age = strs_view(profile@);
    match up.age {
        Some(a) => {
            let d = decimal_string(a as u64);
            profile.push(concat_str("年龄：", d.as_str()));
        },
        None => {},
    }
    assert(strs_view(profile@) =~= before_age + match up.age {
        Some(a) => seq!["年龄："@ + spec_decimal(a as nat)],
        None => Seq::<Seq<char>>::empty(),
    });
    push_opt_line(&mut profile, "性别：", &up.gender);
    push_opt_line(&mut profile, "职业：", &up.occupation);
    push_opt_line(&mut profile, "所在城市：", &up.city);
    push_opt_line(&mut profile, "MBTI：", &up.mbti);
    assert(strs_view(profile@) =~= profile_lines(mem.user_profile));
    push_section(&mut parts, "【用户基本信息】\n", &profile);

    let prefs = &mem.preferences;
    let mut pref: Vec<String> = Vec::new();
    push_list_line(&mut pref, "兴趣爱好：", &prefs.hobbies);
    push_list_line(&mut pref, "喜欢的食物：", &prefs.favorite_foods);
    push_list_line(&mut pref, "喜欢的音乐：", &prefs.favorite_music);
    push_list_line(&mut pref, "喜欢的电影：", &prefs.favorite_movies);
    push_list_line(&mut pref, "不喜欢：", &prefs.dislikes);
    push_opt_line(&mut pref, "通常睡觉时间：", &prefs.sleep_time);
    push_opt_line(&mut pref, "通常起床时间：", &prefs.wake_time);
    assert(strs_view(pref@) =~= preference_lines(mem.preferences));
    push_section(&mut parts, "【用户偏好】\n", &pref);

    let mut events: Vec<String> = Vec::new();
    let mut k: usize = 0;
    while k < mem.key_events.len()
        invariant
            k <= mem.key_events.len(),
            strs_view(events@) =~= mem.key_events@.take(k as int).map_values(|e: KeyEvent| event_line(e)),
        decreases mem.key_events.len() - k,
    {
        let line = render_event(&mem.key_events[k]);
        proof {
            lemma_strs_view_push(events@, line);
            assert(mem.key_events@.take(k + 1).map_values(|e: KeyEvent| event_line(e)) =~= mem.key_events@.take(
                k as int,
            ).map_values(|e: KeyEvent| event_line(e)).push(event_line(mem.key_events@[k as int])));
        }
        events.push(line);
        k += 1;
    }
    assert(mem.key_events@.take(k as int) =~= mem.key_events@);
    push_section(&mut parts, "【重要事件】\n", &events);

    let mut people: Vec<String> = Vec::new();
    let mut k: usize = 0;
    while k < mem.relationships.len()
        invariant
            k <= mem.relationships.len(),
            strs_view(people@) =~= mem.relationships@.take(k as int).map_values(|r: PersonRef| person_line(r)),
        decreases mem.relationships.len() - k,
    {
        let line = render_person(&mem.relationships[k]);
        proof {
            lemma_strs_view_push(people@, line);
            assert(mem.relationships@.take(k + 1).map_values(|r: PersonRef| person_line(r)) =~= mem.relationships@.take(
                k as int,
            ).map_values(|r: PersonRef| person_line(r)).push(person_line(mem.relationships@[k as int])));
        }
        people.push(line);
        k += 1;
    }
    assert(mem.relationships@.take(k as int) =~= mem.relationships@);
    push_section(&mut parts, "【用户身边的人】\n", &people);

    let mut pets: Vec<String> = Vec::new();
    let mut k: usize = 0;
    while k < mem.pets.len()
        invariant
            k <= mem.pets.len(),
            strs_view(pets@) =~= mem.pets@.take(k as int).map_values(|p: PetInfo| pet_line(p)),
        decreases mem.pets.len() - k,
    {
        let line = render_pet(&mem.pets[k]);
        proof {
            lemma_strs_view_push(pets@, line);
            assert(mem.pets@.take(k + 1).map_values(|p: PetInfo| pet_line(p)) =~= mem.pets@.take(
                k as int,
            ).map_values(|p: PetInfo| pet_line(p)).push(pet_line(mem.pets@[k as int])));
        }
        pets.push(line);
        k += 1;
    }
    assert(mem.pets@.take(k as int) =~= mem.pets@);
    push_section(&mut parts, "【宠物】\n", &pets);

    let sm = &mem.shared_memories;
    let mut shared: Vec<String> = Vec::new();
    push_list_line(&mut shared, "我们的歌：", &sm.our_songs);
    push_list_line(&mut shared, "我们的小梗：", &sm.inside_jokes);
    push_list_line(&mut shared, "说过的约定：", &sm.promises);
    assert(strs_view(shared@) =~= shared_lines(mem.shared_memories));
    push_section(&mut parts, "【我们的共同记忆】\n", &shared);

    assert(strs_view(parts@) =~= memory_sections(*mem));
    if parts.len() == 0 {
        return String::new();
    }
    let body = join_strs(&parts, "\n\n");
    concat_str(
        "以下是你记住的关于用户的重要信息，请在对话中自然运用这些信息，不要刻意提到\"我记得\"之类的，而是自然地融入对话：\n\n",
        body.as_str(),
    )
}

// ---------------------------------------------------------------------------
// Merging extracted facts
// ---------------------------------------------------------------------------

/// Changes to the user's profile found in a conversation.
pub struct UserProfileDelta {
    pub name: Option<String>,
    pub nickname: Option<String>,
    pub birthday: Option<String>,
    pub age: Option<u32>,
    pub gender: Option<String>,
    pub occupation: Option<String>,
    pub city: Option<String>,
    pub mbti: Option<String>,
}

/// Preferences found in a conversation.
pub struct PreferencesDelta {
    pub favorite_foods: Vec<String>,
    pub favorite_music: Vec<String>,
    pub favorite_movies: Vec<String>,
    pub favorite_games: Vec<String>,
    pub hobbies: Vec<String>,
    pub dislikes: Vec<String>,
    pub favorite_color: Option<String>,
    pub routines: Vec<String>,
    pub sleep_time: Option<String>,
    pub wake_time: Option<String>,
}

/// Shared memories found in a conversation.
pub struct SharedDelta {
    pub our_songs: Vec<String>,
    pub our_places: Vec<String>,
    pub inside_jokes: Vec<String>,
    pub promises: Vec<String>,
    pub special_dates: Vec<SpecialDate>,
}

/// Everything extracted from one conversation.
pub struct ExtractionResult {
    pub user_profile: UserProfileDelta,
    pub preferences: PreferencesDelta,
    pub new_relationships: Vec<PersonRef>,
    pub new_pets: Vec<PetInfo>,
    pub new_key_events: Vec<KeyEvent>,
    pub shared_memories: SharedDelta,
    pub nickname_for_ai: Option<String>,
}

/// Items that a merge tells apart by a text key.
pub trait Keyed: Sized {
    /// The key that identifies the item.
    spec fn key(&self) -> Seq<char>;

    /// The key, as text.
    fn key_str(&self) -> (r: &str)
        ensures
            r@ == self.key(),
    ;
}

impl Keyed for String {
    open spec fn key(&self) -> Seq<char> {
        self@
    }

    fn key_str(&self) -> (r: &str) {
        self.as_str()
    }
}

impl Keyed for PersonRef {
    open spec fn key(&self) -> Seq<char> {
        self.name@
    }

    fn key_str(&self) -> (r: &str) {
        self.name.as_str()
    }
}

impl Keyed for PetInfo {
    open spec fn key(&self) -> Seq<char> {
        self.name@
    }

    fn key_str(&self) -> (r: &str) {
        self.name.as_str()
    }
}

impl Keyed for SpecialDate {
    open spec fn key(&self) -> Seq<char> {
        self.label@
    }

    fn key_str(&self) -> (r: &str) {
        self.label.as_str()
    }
}

/// Whether some item of `t` has key `k`.
pub open spec fn has_key<T: Keyed>(t: Seq<T>, k: Seq<char>) -> bool {
    exists|j: int| 0 <= j < t.len() && (#[trigger] t[j]).key() == k
}

/// `t` with the items of `s` appended in order, skipping those with an
/// empty key and those whose key is already present.
pub open spec fn merge_keyed<T: Keyed>(t: Seq<T>, s: Seq<T>) -> Seq<T>
    decreases s.len(),
{
    if s.len() == 0 {
        t
    } else {
        let m = merge_keyed(t, s.drop_last());
        let x = s.last();
        if x.key().len() > 0 && !has_key(m, x.key()) {
            m.push(x)
        } else {
            m
        }
    }
}

/// A value replaced by a non-empty new one, kept otherwise.
pub open spec fn apply_text(target: Option<String>, delta: Option<String>) -> Option<String> {
    match delta {
        Some(v) => if v@.len() > 0 {
            Some(v)
        } else {
            target
        },
        None => target,
    }
}

/// An age replaced by a positive new one, kept otherwise.
pub open spec fn apply_age(target: Option<u32>, delta: Option<u32>) -> Option<u32> {
    match delta {
        Some(v) => if v > 0 {
            Some(v)
        } else {
            target
        },
        None => target,
    }
}

/// The key events with a non-empty title, in order.
pub open spec fn titled_events(s: Seq<KeyEvent>) -> Seq<KeyEvent> {
    s.filter(|e: KeyEvent| e.title@.len() > 0)
}

/// Every item of `t` has a non-empty key and no two share one.
pub open spec fn keys_distinct<T: Keyed>(t: Seq<T>) -> bool {
    &&& forall|i: int| 0 <= i < t.len() ==> (#[trigger] t[i]).key().len() > 0
    &&& forall|i: int, j: int| 0 <= i < j < t.len() ==> (#[trigger] t[i]).key() != (#[trigger] t[j]).key()
}

proof fn lemma_has_key_push<T: Keyed>(t: Seq<T>, x: T, k: Seq<char>)
    ensures
        has_key(t.push(x), k) == (has_key(t, k) || x.key() == k),
{
    if has_key(t, k) {
        let j = choose|j: int| 0 <= j < t.len() && (#[trigger] t[j]).key() == k;
        assert(t.push(x)[j] == t[j]);
    }
    if x.key() == k {
        assert(t.push(x)[t.len() as int] == x);
    }
    if has_key(t.push(x), k) {
        let j = choose|j: int| 0 <= j < t.push(x).len() && (#[trigger] t.push(x)[j]).key() == k;
        if j < t.len() {
            assert(t[j] == t.push(x)[j]);
        }
    }
}

/// Every item of `s` with a non-empty key has its key in the merge.
proof fn lemma_merge_keyed_covers<T: Keyed>(t: Seq<T>, s: Seq<T>)
    ensures
        forall|i: int| 0 <= i < s.len() && (#[trigger] s[i]).key().len() > 0 ==> has_key(merge_keyed(t, s), s[i].key()),
        forall|k: Seq<char>| has_key(t, k) ==> has_key(merge_keyed(t, s), k),
    decreases s.len(),
{
    if s.len() > 0 {
        let d = s.drop_last();
        lemma_merge_keyed_covers(t, d);
        let m = merge_keyed(t, d);
        let x = s.last();
        assert forall|k: Seq<char>| has_key(m, k) implies has_key(merge_keyed(t, s), k) by {
            lemma_has_key_push(m, x, k);
        }
        assert forall|i: int| 0 <= i < s.len() && (#[trigger] s[i]).key().len() > 0 implies has_key(merge_keyed(t, s), s[i].key()) by {
            if i < s.len() - 1 {
                assert(s[i] == d[i]);
            } else {
                lemma_has_key_push(m, x, x.key());
            }
        }
    }
}

/// Merging items whose keys are all present already changes nothing.
proof fn lemma_merge_keyed_present<T: Keyed>(t: Seq<T>, s: Seq<T>)
    requires
        forall|i: int| 0 <= i < s.len() && (#[trigger] s[i]).key().len() > 0 ==> has_key(t, s[i].key()),
    ensures
        merge_keyed(t, s) == t,
    decreases s.len(),
{
    if s.len() > 0 {
        let d = s.drop_last();
        assert forall|i: int| 0 <= i < d.len() && (#[trigger] d[i]).key().len() > 0 implies has_key(t, d[i].key()) by {
            assert(d[i] == s[i]);
        }
        lemma_merge_keyed_present(t, d);
        let x = s.last();
        if x.key().len() > 0 {
            assert(s[s.len() - 1] == x);
        }
    }
}

/// Merging the same items a second time changes nothing.
pub proof fn law_merge_keyed_idempotent<T: Keyed>(t: Seq<T>, s: Seq<T>)
    ensures
        merge_keyed(merge_keyed(t, s), s) == merge_keyed(t, s),
{
    lemma_merge_keyed_covers(t, s);
    lemma_merge_keyed_present(merge_keyed(t, s), s);
}

/// A merge keeps keys non-empty and distinct.
pub proof fn law_merge_keyed_distinct<T: Keyed>(t: Seq<T>, s: Seq<T>)
    requires
        keys_distinct(t),
    ensures
        keys_distinct(merge_keyed(t, s)),
    decreases s.len(),
{
    if s.len() > 0 {
        let d = s.drop_last();
        law_merge_keyed_distinct(t, d);
        let m = merge_keyed(t, d);
        let x = s.last();
        if x.key().len() > 0 && !has_key(m, x.key()) {
            let n = m.push(x);
            assert forall|i: int, j: int| 0 <= i < j < n.len() implies (#[trigger] n[i]).key() != (#[trigger] n[j]).key() by {
                if j == m.len() {
                    assert(n[i] == m[i]);
                    if m[i].key() == x.key() {
                        assert(has_key(m, x.key()));
                    }
                } else {
                    assert(n[i] == m[i] && n[j] == m[j]);
                }
            }
            assert forall|i: int| 0 <= i < n.len() implies (#[trigger] n[i]).key().len() > 0 by {
                if i < m.len() {
                    assert(n[i] == m[i]);
                }
            }
        }
    }
}

/// The merge keeps what was there, in order, as its beginning.
pub proof fn law_merge_keyed_keeps<T: Keyed>(t: Seq<T>, s: Seq<T>)
    ensures
        merge_keyed(t, s).len() >= t.len(),
        merge_keyed(t, s).take(t.len() as int) == t,
    decreases s.len(),
{
    if s.len() > 0 {
        law_merge_keyed_keeps(t, s.drop_last());
        let m = merge_keyed(t, s.drop_last());
        assert(m.push(s.last()).take(t.len() as int) =~= m.take(t.len() as int));
    }
}

/// An extracted text that is present and not empty is learnt, whatever
/// was known before (nothing included); an absent or empty one leaves what
/// was known.
pub proof fn law_apply_text_learns(target: Option<String>, delta: Option<String>)
    ensures
        (delta matches Some(v) && v@.len() > 0) ==> apply_text(target, delta) == delta,
        (delta matches Some(v) && v@.len() > 0) ==> apply_text(target, delta)->Some_0@ == delta->Some_0@,
        !(delta matches Some(v) && v@.len() > 0) ==> apply_text(target, delta) == target,
{
}

/// An extracted age above zero is learnt, whatever was known before; an
/// absent or zero one leaves what was known.
pub proof fn law_apply_age_learns(target: Option<u32>, delta: Option<u32>)
    ensures
        (delta matches Some(v) && v > 0) ==> apply_age(target, delta) == delta,
        !(delta matches Some(v) && v > 0) ==> apply_age(target, delta) == target,
{
}

/// Replacing a text twice by the same new value is replacing it once.
pub proof fn law_apply_text_idempotent(target: Option<String>, delta: Option<String>)
    ensures
        apply_text(apply_text(target, delta), delta) == apply_text(target, delta),
{
}

/// Replacing an age twice by the same new value is replacing it once.
pub proof fn law_apply_age_idempotent(target: Option<u32>, delta: Option<u32>)
    ensures
        apply_age(apply_age(target, delta), delta) == apply_age(target, delta),
{
}

/// Merges items into `target` by key.
pub fn merge_items<T: Keyed>(target: &mut Vec<T>, src: Vec<T>)
    ensures
        final(target)@ == merge_keyed(old(target)@, src@),
{
    let ghost t0 = target@;
    let ghost s0 = src@;
    let total = src.len();
    let mut src = src;
    let mut k: usize = 0;
    while src.len() > 0
        invariant
            k + src.len() == s0.len(),
            s0.len() == total,
            src@ == s0.skip(k as int),
            target@ == merge_keyed(t0, s0.take(k as int)),
        decreases src.len(),
    {
        let item = src.remove(0);
        proof {
            assert(item == s0[k as int]);
            assert(s0.take(k + 1).drop_last() =~= s0.take(k as int));
        }
        let key = item.key_str();
        let mut found = false;
        let mut j: usize = 0;
        if key.is_empty() {
            found = true;
        }
        while !found && j < target.len()
            invariant
                j <= target.len(),
                !found ==> forall|q: int| 0 <= q < j ==> (#[trigger] target@[q]).key() != key@,
                !found ==> key@.len() > 0,
                found ==> key@.len() == 0 || has_key(target@, key@),
            decreases target.len() - j + if found { 0int } else { 1int },
        {
            if str_eq(target[j].key_str(), key) {
                found = true;
            } else {
                j += 1;
            }
        }
        proof {
            assert(s0.take(k + 1).last() == item);
            if !found {
                assert forall|q: int| 0 <= q < target@.len() implies (#[trigger] target@[q]).key() != key@ by {}
                assert(!has_key(target@, key@));
                assert(key@.len() > 0);
            }
        }
        if !found {
            target.push(item);
        }
        k += 1;
        assert(src@ =~= s0.skip(k as int));
    }
    assert(s0.take(k as int) =~= s0);
}

/// Appends the events that have a title.
pub fn append_titled_events(target: &mut Vec<KeyEvent>, src: Vec<KeyEvent>)
    ensures
        final(target)@ == old(target)@ + titled_events(src@),
{
    let ghost t0 = target@;
    let ghost s0 = src@;
    let total = src.len();
    let mut src = src;
    let mut k: usize = 0;
    proof {
        reveal(Seq::filter);
        assert(s0.take(0) =~= Seq::<KeyEvent>::empty());
    }
    assert(target@ =~= t0 + titled_events(s0.take(0)));
    while src.len() > 0
        invariant
            k + src.len() == s0.len(),
            s0.len() == total,
            src@ == s0.skip(k as int),
            target@ == t0 + titled_events(s0.take(k as int)),
        decreases src.len(),
    {
        let item = src.remove(0);
        proof {
            assert(item == s0[k as int]);
            assert(s0.take(k + 1) =~= s0.take(k as int).push(item));
            s0.take(k as int).lemma_filter_push(item, |e: KeyEvent| e.title@.len() > 0);
        }
        if !item.title.as_str().is_empty() {
            target.push(item);
        }
        k += 1;
        assert(src@ =~= s0.skip(k as int));
    }
    assert(s0.take(k as int) =~= s0);
}

fn apply_text_field(target: &mut Option<String>, delta: Option<String>)
    ensures
        *final(target) == apply_text(*old(target), delta),
{
    match delta {
        Some(v) => {
            if !v.as_str().is_empty() {
                *target = Some(v);
            }
        },
        None => {},
    }
}

/// Whether `a` is the beginning of `b`.
pub open spec fn seq_prefix<T>(a: Seq<T>, b: Seq<T>) -> bool {
    a.len() <= b.len() && b.take(a.len() as int) == a
}

/// Every list of the memory `a` is the beginning of the same list of `b`.
pub open spec fn lists_extend(a: CoreMemory, b: CoreMemory) -> bool {
    &&& seq_prefix(a.preferences.favorite_foods@, b.preferences.favorite_foods@)
    &&& seq_prefix(a.preferences.favorite_music@, b.preferences.favorite_music@)
    &&& seq_prefix(a.preferences.favorite_movies@, b.preferences.favorite_movies@)
    &&& seq_prefix(a.preferences.favorite_games@, b.preferences.favorite_games@)
    &&& seq_prefix(a.preferences.hobbies@, b.preferences.hobbies@)
    &&& seq_prefix(a.preferences.dislikes@, b.preferences.dislikes@)
    &&& seq_prefix(a.preferences.routines@, b.preferences.routines@)
    &&& seq_prefix(a.shared_memories.our_songs@, b.shared_memories.our_songs@)
    &&& seq_prefix(a.shared_memories.our_places@, b.shared_memories.our_places@)
    &&& seq_prefix(a.shared_memories.inside_jokes@, b.shared_memories.inside_jokes@)
    &&& seq_prefix(a.shared_memories.promises@, b.shared_memories.promises@)
    &&& seq_prefix(a.shared_memories.special_dates@, b.shared_memories.special_dates@)
    &&& seq_prefix(a.relationships@, b.relationships@)
    &&& seq_prefix(a.pets@, b.pets@)
    &&& seq_prefix(a.key_events@, b.key_events@)
}

/// No list of the memory (but the key events) holds an empty entry or two
/// entries with the same text, name or label.
pub open spec fn lists_distinct(m: CoreMemory) -> bool {
    &&& keys_distinct(m.preferences.favorite_foods@)
    &&& keys_distinct(m.preferences.favorite_music@)
    &&& keys_distinct(m.preferences.favorite_movies@)
    &&& keys_distinct(m.preferences.favorite_games@)
    &&& keys_distinct(m.preferences.hobbies@)
    &&& keys_distinct(m.preferences.dislikes@)
    &&& keys_distinct(m.preferences.routines@)
    &&& keys_distinct(m.shared_memories.our_songs@)
    &&& keys_distinct(m.shared_memories.our_places@)
    &&& keys_distinct(m.shared_memories.inside_jokes@)
    &&& keys_distinct(m.shared_memories.promises@)
    &&& keys_distinct(m.shared_memories.special_dates@)
    &&& keys_distinct(m.relationships@)
    &&& keys_distinct(m.pets@)
}

/// Merges extracted facts into the memory: non-empty scalar facts replace
/// the old ones, list items and named records are added when new (by text,
/// name or label), and titled key events are appended.  Returns the
/// nickname the user gave the companion, when one was found.
pub fn merge_extraction(mem: &mut CoreMemory, result: ExtractionResult) -> (nick: Option<String>)
    ensures
        final(mem).persona_id == old(mem).persona_id,
        final(mem).updated_at == old(mem).updated_at,
        final(mem).user_profile.name == apply_text(old(mem).user_profile.name, result.user_profile.name),
        final(mem).user_profile.nickname == apply_text(old(mem).user_profile.nickname, result.user_profile.nickname),
        final(mem).user_profile.birthday == apply_text(old(mem).user_profile.birthday, result.user_profile.birthday),
        final(mem).user_profile.age == apply_age(old(mem).user_profile.age, result.user_profile.age),
        final(mem).user_profile.gender == apply_text(old(mem).user_profile.gender, result.user_profile.gender),
        final(mem).user_profile.occupation == apply_text(old(mem).user_profile.occupation, result.user_profile.occupation),
        final(mem).user_profile.city == apply_text(old(mem).user_profile.city, result.user_profile.city),
        final(mem).user_profile.education == old(mem).user_profile.education,
        final(mem).user_profile.mbti == apply_text(old(mem).user_profile.mbti, result.user_profile.mbti),
        final(mem).preferences.favorite_foods@ == merge_keyed(old(mem).preferences.favorite_foods@, result.preferences.favorite_foods@),
        final(mem).preferences.favorite_music@ == merge_keyed(old(mem).preferences.favorite_music@, result.preferences.favorite_music@),
        final(mem).preferences.favorite_movies@ == merge_keyed(old(mem).preferences.favorite_movies@, result.preferences.favorite_movies@),
        final(mem).preferences.favorite_games@ == merge_keyed(old(mem).preferences.favorite_games@, result.preferences.favorite_games@),
        final(mem).preferences.hobbies@ == merge_keyed(old(mem).preferences.hobbies@, result.preferences.hobbies@),
        final(mem).preferences.dislikes@ == merge_keyed(old(mem).preferences.dislikes@, result.preferences.dislikes@),
        final(mem).preferences.routines@ == merge_keyed(old(mem).preferences.routines@, result.preferences.routines@),
        final(mem).preferences.favorite_color == apply_text(old(mem).preferences.favorite_color, result.preferences.favorite_color),
        final(mem).preferences.sleep_time == apply_text(old(mem).preferences.sleep_time, result.preferences.sleep_time),
        final(mem).preferences.wake_time == apply_text(old(mem).preferences.wake_time, result.preferences.wake_time),
        final(mem).relationships@ == merge_keyed(old(mem).relationships@, result.new_relationships@),
        final(mem).pets@ == merge_keyed(old(mem).pets@, result.new_pets@),
        final(mem).key_events@ == old(mem).key_events@ + titled_events(result.new_key_events@),
        final(mem).shared_memories.our_songs@ == merge_keyed(old(mem).shared_memories.our_songs@, result.shared_memories.our_songs@),
        final(mem).shared_memories.our_places@ == merge_keyed(old(mem).shared_memories.our_places@, result.shared_memories.our_places@),
        final(mem).shared_memories.inside_jokes@ == merge_keyed(old(mem).shared_memories.inside_jokes@, result.shared_memories.inside_jokes@),
        final(mem).shared_memories.promises@ == merge_keyed(old(mem).shared_memories.promises@, result.shared_memories.promises@),
        final(mem).shared_memories.special_dates@ == merge_keyed(old(mem).shared_memories.special_dates@, result.shared_memories.special_dates@),
        lists_extend(*old(mem), *final(mem)),
        lists_distinct(*old(mem)) ==> lists_distinct(*final(mem)),
        nick == match result.nickname_for_ai {
            Some(n) => if n@.len() > 0 { Some(n) } else { None },
            None => None,
        },
{
    let ghost r0 = result;
    let ExtractionResult {
        user_profile: up,
        preferences: pr,
        new_relationships,
        new_pets,
        new_key_events,
        shared_memories: sh,
        nickname_for_ai,
    } = result;
    apply_text_field(&mut mem.user_profile.name, up.name);
    apply_text_field(&mut mem.user_profile.nickname, up.nickname);
    apply_text_field(&mut mem.user_profile.birthday, up.birthday);
    match up.age {
        Some(v) => {
            if v > 0 {
                mem.user_profile.age = Some(v);
            }
        },
        None => {},
    }
    apply_text_field(&mut mem.user_profile.gender, up.gender);
    apply_text_field(&mut mem.user_profile.occupation, up.occupation);
    apply_text_field(&mut mem.user_profile.city, up.city);
    apply_text_field(&mut mem.user_profile.mbti, up.mbti);

    merge_items(&mut mem.preferences.favorite_foods, pr.favorite_foods);
    merge_items(&mut mem.preferences.favorite_music, pr.favorite_music);
    merge_items(&mut mem.preferences.favorite_movies, pr.favorite_movies);
    merge_items(&mut mem.preferences.favorite_games, pr.favorite_games);
    merge_items(&mut mem.preferences.hobbies, pr.hobbies);
    merge_items(&mut mem.preferences.dislikes, pr.dislikes);
    merge_items(&mut mem.preferences.routines, pr.routines);
    apply_text_field(&mut mem.preferences.favorite_color, pr.favorite_color);
    apply_text_field(&mut mem.preferences.sleep_time, pr.sleep_time);
    apply_text_field(&mut mem.preferences.wake_time, pr.wake_time);

    merge_items(&mut mem.relationships, new_relationships);
    merge_items(&mut mem.pets, new_pets);
    append_titled_events(&mut mem.key_events, new_key_events);

    merge_items(&mut mem.shared_memories.our_songs, sh.our_songs);
    merge_items(&mut mem.shared_memories.our_places, sh.our_places);
    merge_items(&mut mem.shared_memories.inside_jokes, sh.inside_jokes);
    merge_items(&mut mem.shared_memories.promises, sh.promises);
    merge_items(&mut mem.shared_memories.special_dates, sh.special_dates);

    proof {
        law_merge_keyed_keeps(old(mem).preferences.favorite_foods@, r0.preferences.favorite_foods@);
        if lists_distinct(*old(mem)) {
            law_merge_keyed_distinct(old(mem).preferences.favorite_foods@, r0.preferences.favorite_foods@);
        }
        law_merge_keyed_keeps(old(mem).preferences.favorite_music@, r0.preferences.favorite_music@);
        if lists_distinct(*old(mem)) {
            law_merge_keyed_distinct(old(mem).preferences.favorite_music@, r0.preferences.favorite_music@);
        }
        law_merge_keyed_keeps(old(mem).preferences.favorite_movies@, r0.preferences.favorite_movies@);
        if lists_distinct(*old(mem)) {
            law_merge_keyed_distinct(old(mem).preferences.favorite_movies@, r0.preferences.favorite_movies@);
        }
        law_merge_keyed_keeps(old(mem).preferences.favorite_games@, r0.preferences.favorite_games@);
        if lists_distinct(*old(mem)) {
            law_merge_keyed_distinct(old(mem).preferences.favorite_games@, r0.preferences.favorite_games@);
        }
        law_merge_keyed_keeps(old(mem).preferences.hobbies@, r0.preferences.hobbies@);
        if lists_distinct(*old(mem)) {
            law_merge_keyed_distinct(old(mem).preferences.hobbies@, r0.preferences.hobbies@);
        }
        law_merge_keyed_keeps(old(mem).preferences.dislikes@, r0.preferences.dislikes@);
        if lists_distinct(*old(mem)) {
            law_merge_keyed_distinct(old(mem).preferences.dislikes@, r0.preferences.dislikes@);
        }
        law_merge_keyed_keeps(old(mem).preferences.routines@, r0.preferences.routines@);
        if lists_distinct(*old(mem)) {
            law_merge_keyed_distinct(old(mem).preferences.routines@, r0.preferences.routines@);
        }
        law_merge_keyed_keeps(old(mem).shared_memories.our_songs@, r0.shared_memories.our_songs@);
        if lists_distinct(*old(mem)) {
            law_merge_keyed_distinct(old(mem).shared_memories.our_songs@, r0.shared_memories.our_songs@);
        }
        law_merge_keyed_keeps(old(mem).shared_memories.our_places@, r0.shared_memories.our_places@);
        if lists_distinct(*old(mem)) {
            law_merge_keyed_distinct(old(mem).shared_memories.our_places@, r0.shared_memories.our_places@);
        }
        law_merge_keyed_keeps(old(mem).shared_memories.inside_jokes@, r0.shared_memories.inside_jokes@);
        if lists_distinct(*old(mem)) {
            law_merge_keyed_distinct(old(mem).shared_memories.inside_jokes@, r0.shared_memories.inside_jokes@);
        }
        law_merge_keyed_keeps(old(mem).shared_memories.promises@, r0.shared_memories.promises@);
        if lists_distinct(*old(mem)) {
            law_merge_keyed_distinct(old(mem).shared_memories.promises@, r0.shared_memories.promises@);
        }
        law_merge_keyed_keeps(old(mem).shared_memories.special_dates@, r0.shared_memories.special_dates@);
        if lists_distinct(*old(mem)) {
            law_merge_keyed_distinct(old(mem).shared_memories.special_dates@, r0.shared_memories.special_dates@);
        }
        law_merge_keyed_keeps(old(mem).relationships@, r0.new_relationships@);
        if lists_distinct(*old(mem)) {
            law_merge_keyed_distinct(old(mem).relationships@, r0.new_relationships@);
        }
        law_merge_keyed_keeps(old(mem).pets@, r0.new_pets@);
        if lists_distinct(*old(mem)) {
            law_merge_keyed_distinct(old(mem).pets@, r0.new_pets@);
        }
        assert(mem.key_events@.take(old(mem).key_events@.len() as int) =~= old(mem).key_events@);
    }
    match nickname_for_ai {
        Some(n) => {
            if n.as_str().is_empty() {
                None
            } else {
                Some(n)
            }
        },
        None => None,
    }
}

/// The instruction given to the model that extracts facts, followed by
/// the conversation.
pub open spec fn spec_extraction_prompt(conversation: Seq<char>) -> Seq<char> {
    extraction_instruction() + conversation
}

/// The fixed instruction of the extraction prompt.
pub open spec fn extraction_instruction() -> Seq<char> {
    EXTRACTION_PROMPT@
}

/// The instruction that asks a model to extract facts as JSON.
pub const EXTRACTION_PROMPT: &'static str = "你是一个记忆提取助手。请分析下面这段用户与AI伴侣的对话，提取值得长期记住的信息。\n\n只返回严格的JSON，不要任何其他文字。格式如下：\n{\n  \"user_profile\": {\n    \"name\": null,\n    \"nickname\": null,\n    \"birthday\": null,\n    \"age\": null,\n    \"gender\": null,\n    \"occupation\": null,\n    \"city\": null,\n    \"mbti\": null\n  },\n  \"preferences\": {\n    \"favorite_foods\": [],\n    \"favorite_music\": [],\n    \"favorite_movies\": [],\n    \"favorite_games\": [],\n    \"hobbies\": [],\n    \"dislikes\": [],\n    \"favorite_color\": null,\n    \"routines\": [],\n    \"sleep_time\": null,\n    \"wake_time\": null\n  },\n  \"new_relationships\": [],\n  \"new_pets\": [],\n  \"new_key_events\": [],\n  \"shared_memories\": {\n    \"our_songs\": [],\n    \"our_places\": [],\n    \"inside_jokes\": [],\n    \"promises\": [],\n    \"special_dates\": []\n  },\n  \"nickname_for_ai\": null\n}\n\n只提取对话中**明确提到**的信息，不要猜测、脑补。如果某个字段没有相关信息，保持null或空数组。\n\n对话内容：\n";

/// Builds the extraction prompt for a conversation.
pub fn build_extraction_prompt(conversation: &str) -> (r: String)
    ensures
        r@ == spec_extraction_prompt(conversation@),
{
    concat_str(EXTRACTION_PROMPT, conversation)
}

/// The conversation text handed to the extractor.
pub open spec fn spec_conversation_text(user_msg: Seq<char>, assistant_msg: Seq<char>) -> Seq<char> {
    "用户："@ + user_msg + "\nAI："@ + assistant_msg
}

/// Formats one exchange for fact extraction.
pub fn conversation_text(user_msg: &str, assistant_msg: &str) -> (r: String)
    ensures
        r@ == spec_conversation_text(user_msg@, assistant_msg@),
{
    let mut r = String::from_str("用户：");
    r.append(user_msg);
    r.append("\nAI：");
    r.append(assistant_msg);
    r
}

// ---------------------------------------------------------------------------
// Short-term memory and session summaries
// ---------------------------------------------------------------------------

/// A message as a line of working memory: its role, a colon and its text.
pub open spec fn memory_line(m: Message) -> Seq<char> {
    m.role@ + ": "@ + m.content@
}

/// The last `n` messages (all of them when there are fewer), oldest first.
pub open spec fn last_n<T>(s: Seq<T>, n: nat) -> Seq<T> {
    if s.len() <= n {
        s
    } else {
        s.subrange(s.len() - n, s.len() as int)
    }
}

/// The most recent `n` messages as working-memory lines, oldest first.
pub fn short_term(messages: &[Message], n: usize) -> (r: Vec<String>)
    ensures
        strs_view(r@) == last_n(messages@, n as nat).map_values(|m: Message| memory_line(m)),
{
    let len = messages.len();
    let start: usize = if len <= n { 0 } else { len - n };
    let ghost want = last_n(messages@, n as nat);
    assert(want =~= messages@.subrange(start as int, len as int));
    let mut r: Vec<String> = Vec::new();
    let mut k = start;
    while k < len
        invariant
            start <= k <= len,
            len == messages@.len(),
            strs_view(r@) =~= messages@.subrange(start as int, k as int).map_values(|m: Message| memory_line(m)),
        decreases len - k,
    {
        let m = &messages[k];
        let mut line = String::from_str(m.role.as_str());
        line.append(": ");
        line.append(m.content.as_str());
        proof {
            lemma_strs_view_push(r@, line);
            assert(messages@.subrange(start as int, k + 1).map_values(|m: Message| memory_line(m))
                =~= messages@.subrange(start as int, k as int).map_values(|m: Message| memory_line(m)).push(memory_line(messages@[k as int])));
        }
        r.push(line);
        k += 1;
    }
    r
}

/// The summary recorded last for a session, if any.
pub open spec fn summary_lookup(e: Seq<(String, String)>, k: Seq<char>) -> Option<Seq<char>>
    decreases e.len(),
{
    if e.len() == 0 {
        None
    } else if e.last().0@ == k {
        Some(e.last().1@)
    } else {
        summary_lookup(e.drop_last(), k)
    }
}

/// A store of session summaries, one per session.
pub struct Summarizer {
    entries: Vec<(String, String)>,
}

impl View for Summarizer {
    type V = Map<Seq<char>, Seq<char>>;

    /// The summaries by session id.
    closed spec fn view(&self) -> Map<Seq<char>, Seq<char>> {
        Map::new(
            |k: Seq<char>| summary_lookup(self.entries@, k) is Some,
            |k: Seq<char>| summary_lookup(self.entries@, k).unwrap(),
        )
    }
}

proof fn lemma_lookup_update(e: Seq<(String, String)>, j: int, k: Seq<char>, v: (String, String), q: Seq<char>)
    requires
        0 <= j < e.len(),
        e[j].0@ == k,
        v.0@ == k,
        forall|i: int| j < i < e.len() ==> (#[trigger] e[i]).0@ != k,
    ensures
        summary_lookup(e.update(j, v), q) == if q == k { Some(v.1@) } else { summary_lookup(e, q) },
    decreases e.len(),
{
    if j < e.len() - 1 {
        assert(e.update(j, v).drop_last() =~= e.drop_last().update(j, v));
        assert(e.last() == e[e.len() - 1]);
        lemma_lookup_update(e.drop_last(), j, k, v, q);
    } else {
        assert(e.update(j, v).drop_last() =~= e.drop_last());
    }
}

impl Summarizer {
    /// An empty store.
    pub fn new() -> (r: Self)
        ensures
            r@ == Map::<Seq<char>, Seq<char>>::empty(),
    {
        let r = Summarizer { entries: Vec::new() };
        assert(r@ =~= Map::<Seq<char>, Seq<char>>::empty());
        r
    }

    /// Records the summary of a session, replacing an earlier one.
    pub fn store(&mut self, session_id: &str, summary: &str)
        ensures
            final(self)@ == old(self)@.insert(session_id@, summary@),
    {
        let ghost e0 = self.entries@;
        let mut j = self.entries.len();
        while j > 0
            invariant
                j <= self.entries.len(),
                self.entries@ == e0,
                forall|i: int| j <= i < e0.len() ==> (#[trigger] e0[i]).0@ != session_id@,
            ensures
                j <= self.entries.len(),
                self.entries@ == e0,
                forall|i: int| j <= i < e0.len() ==> (#[trigger] e0[i]).0@ != session_id@,
                j > 0 ==> e0[j - 1].0@ == session_id@,
            decreases j,
        {
            if str_eq(self.entries[j - 1].0.as_str(), session_id) {
                break;
            }
            j -= 1;
        }
        let entry = (String::from_str(session_id), String::from_str(summary));
        if j > 0 {
            let ghost idx = j - 1;
            proof {
                assert(e0[idx].0@ == session_id@);
            }
            self.entries.set(j - 1, entry);
            proof {
                assert forall|q: Seq<char>| #[trigger] summary_lookup(self.entries@, q) == if q == session_id@ {
                    Some(summary@)
                } else {
                    summary_lookup(e0, q)
                } by {
                    lemma_lookup_update(e0, idx as int, session_id@, entry, q);
                }
            }
        } else {
            self.entries.push(entry);
            proof {
                assert(self.entries@.drop_last() =~= e0);
                assert forall|q: Seq<char>| #[trigger] summary_lookup(self.entries@, q) == if q == session_id@ {
                    Some(summary@)
                } else {
                    summary_lookup(e0, q)
                } by {}
            }
        }
        assert(self@ =~= old(self)@.insert(session_id@, summary@));
    }

    /// The summary of a session, if one was recorded.
    pub fn get(&self, session_id: &str) -> (r: Option<&str>)
        ensures
            match r {
                Some(s) => self@.contains_key(session_id@) && self@[session_id@] == s@,
                None => !self@.contains_key(session_id@),
            },
    {
        let mut j = self.entries.len();
        assert(self.entries@.take(j as int) =~= self.entries@);
        while j > 0
            invariant
                j <= self.entries.len(),
                forall|i: int| j <= i < self.entries@.len() ==> (#[trigger] self.entries@[i]).0@ != session_id@,
                summary_lookup(self.entries@, session_id@) == summary_lookup(self.entries@.take(j as int), session_id@),
            decreases j,
        {
            if str_eq(self.entries[j - 1].0.as_str(), session_id) {
                let ghost t = self.entries@.take(j as int);
                assert(t.last() == self.entries@[j - 1]);
                return Some(self.entries[j - 1].1.as_str());
            }
            assert(self.entries@.take(j as int).drop_last() =~= self.entries@.take(j - 1));
            j -= 1;
        }
        None
    }
}

/// After a summary is recorded, reading that session gives it back, and
/// every other session reads as before.
pub proof fn law_summary_read_after_store(before: Map<Seq<char>, Seq<char>>, after: Map<Seq<char>, Seq<char>>, id: Seq<char>, summary: Seq<char>, other: Seq<char>)
    requires
        after == before.insert(id, summary),
        other != id,
    ensures
        after.contains_key(id),
        after[id] == summary,
        after.contains_key(other) == before.contains_key(other),
        before.contains_key(other) ==> after[other] == before[other],
{
}

} // verus!
