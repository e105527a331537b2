//! Turning the sound of a video into text: what comes out of the decoder, and how the
//! transcript is written.

use crate::text;
use vstd::prelude::*;

verus! {

/// Samples per second.
pub const SAMPLE_RATE: u64 = 16_000;

/// So many samples are looked at together.
pub const VAD_WINDOW: usize = 512;

/// Two bytes as a sample, the low one first.
pub open spec fn sample_of(low: u8, high: u8) -> i16 {
    let v = low as int + 256 * (high as int);
    if v >= 0x8000 {
        (v - 0x1_0000) as i16
    } else {
        v as i16
    }
}

/// The samples of some bytes; a byte that is left over at the end is none.
pub open spec fn samples_of(bytes: Seq<u8>) -> Seq<i16> {
    Seq::new(bytes.len() / 2, |i: int| sample_of(bytes[2 * i], bytes[2 * i + 1]))
}

/// The byte that is left over.
pub open spec fn left_over(bytes: Seq<u8>) -> Option<u8> {
    if bytes.len() % 2 == 1 {
        Some(bytes.last())
    } else {
        None
    }
}

/// A stream of samples that arrives in pieces of any length.
#[derive(Clone, Copy, Debug, PartialEq, Eq, Structural)]
pub struct Pcm16Stream {
    pub carry: Option<u8>,
}

/// The bytes of a piece with the one that was left over before.
pub open spec fn with_carry(carry: Option<u8>, bytes: Seq<u8>) -> Seq<u8> {
    match carry {
        Some(b) => seq![b] + bytes,
        None => bytes,
    }
}

fn make_sample(low: u8, high: u8) -> (r: i16)
    ensures
        r == sample_of(low, high),
{
    let v: i32 = low as i32 + 256 * (high as i32);
    if v >= 0x8000 {
        (v - 0x1_0000) as i16
    } else {
        v as i16
    }
}

impl Pcm16Stream {
    /// Nothing arrived yet.
    pub fn new() -> (r: Pcm16Stream)
        ensures
            r.carry is None,
    {
        Pcm16Stream { carry: None }
    }

    /// Takes a piece in: its samples are put behind the others, a byte that is left over
    /// is kept for the next piece. Says how many samples there were.
    pub fn push(&mut self, bytes: &Vec<u8>, out: &mut Vec<i16>) -> (r: usize)
        requires
            bytes@.len() < usize::MAX,
        ensures
            final(out)@ == old(out)@ + samples_of(with_carry(old(self).carry, bytes@)),
            final(self).carry == left_over(with_carry(old(self).carry, bytes@)),
            r == with_carry(old(self).carry, bytes@).len() / 2,
    {
        let ghost all = with_carry(self.carry, bytes@);
        let ghost before = out@;
        let n: usize = bytes.len();
        let mut offset: usize = 0;
        let mut produced: usize = 0;
        let ghost shift: int = if self.carry is Some {
            1
        } else {
            0
        };
        if let Some(low) = self.carry {
            if n == 0 {
                assert(all =~= seq![low]);
                assert(before + samples_of(all) =~= before);
                return 0;
            }
            out.push(make_sample(low, bytes[0]));
            produced = 1;
            offset = 1;
            assert(out@ =~= before + samples_of(all).take(1));
        } else {
            assert(out@ =~= before + samples_of(all).take(0));
        }
        while n - offset > 1
            invariant
                n == bytes@.len(),
                n < usize::MAX,
                offset <= n,
                shift == 0 || shift == 1,
                offset + shift == 2 * produced,
                all.len() == n + shift,
                forall|k: int| 0 <= k < n ==> #[trigger] bytes@[k] == all[k + shift],
                produced <= samples_of(all).len(),
                out@ == before + samples_of(all).take(produced as int),
            decreases n - offset,
        {
            out.push(make_sample(bytes[offset], bytes[offset + 1]));
            proof {
                assert(bytes@[offset as int] == all[2 * produced]);
                assert(bytes@[offset + 1] == all[2 * produced + 1]);
                assert(samples_of(all).take(produced + 1) =~= samples_of(all).take(
                    produced as int,
                ).push(samples_of(all)[produced as int]));
                assert(out@ =~= before + samples_of(all).take(produced + 1));
            }
            produced = produced + 1;
            offset = offset + 2;
        }
        if offset < n {
            self.carry = Some(bytes[offset]);
            assert(bytes@[offset as int] == all[offset + shift]);
        } else {
            self.carry = None;
        }
        assert(samples_of(all).take(produced as int) =~= samples_of(all));
        produced
    }

    /// Ends the stream. A byte that is left over is an error: nothing is cut off in
    /// silence.
    pub fn finish(&mut self) -> (r: Result<(), &'static str>)
        ensures
            r is Ok <==> old(self).carry is None,
            r matches Err(e) ==> e@ == "ffmpeg 输出的 PCM 包含不完整的最后一个字节"@,
            final(self).carry is None,
    {
        let whole: bool = self.carry.is_none();
        self.carry = None;
        if whole {
            Ok(())
        } else {
            Err("ffmpeg 输出的 PCM 包含不完整的最后一个字节")
        }
    }
}

/// It does not matter where a stream is cut: two pieces give the samples of both
/// together.
pub proof fn law_pieces_do_not_matter(a: Seq<u8>, b: Seq<u8>)
    ensures
        samples_of(a + b) == samples_of(a) + samples_of(with_carry(left_over(a), b)),
        left_over(a + b) == left_over(with_carry(left_over(a), b)),
{
    let rest = with_carry(left_over(a), b);
    assert(samples_of(a + b) =~= samples_of(a) + samples_of(rest));
}

/// Takes the next full window out of the samples that wait, if there is one.
pub fn next_window(pending: &mut Vec<i16>) -> (r: Option<Vec<i16>>)
    ensures
        match r {
            None => old(pending)@.len() < VAD_WINDOW && final(pending)@ == old(pending)@,
            Some(w) => old(pending)@.len() >= VAD_WINDOW && w@ == old(pending)@.take(
                VAD_WINDOW as int,
            ) && final(pending)@ == old(pending)@.skip(VAD_WINDOW as int),
        },
{
    if pending.len() < VAD_WINDOW {
        return None;
    }
    let ghost all = pending@;
    let rest = pending.split_off(VAD_WINDOW);
    let mut window: Vec<i16> = rest;
    std::mem::swap(&mut window, pending);
    assert(window@ =~= all.take(VAD_WINDOW as int));
    assert(pending@ =~= all.skip(VAD_WINDOW as int));
    Some(window)
}

/// How the decoding of a file ended.
#[derive(Debug)]
pub enum DecodeVerdict {
    Samples,
    /// The file has no sound.
    NoAudio,
    Failed(String),
}

/// The words of the decoder for a file without sound.
pub open spec fn says_no_audio(stderr: Seq<char>) -> bool {
    text::has_text(stderr, "matches no streams"@) || text::has_text(stderr, "Stream map '0:a:0'"@)
}

/// Judges the decoding of a file: first by whether the samples were whole, then by the
/// decoder's own words.
pub fn judge_decode(whole: Result<(), &'static str>, success: bool, stderr: &str) -> (r:
    DecodeVerdict)
    ensures
        match r {
            DecodeVerdict::Samples => whole is Ok && success,
            DecodeVerdict::NoAudio => whole is Ok && !success && says_no_audio(stderr@),
            DecodeVerdict::Failed(e) => match whole {
                Err(x) => e@ == x@,
                Ok(_) => !success && !says_no_audio(stderr@) && e@ == "ffmpeg 解码失败: "@
                    + text::trimmed(stderr@),
            },
        },
{
    match whole {
        Err(x) => return DecodeVerdict::Failed(x.to_owned()),
        Ok(_) => {},
    }
    if success {
        return DecodeVerdict::Samples;
    }
    if text::contains(stderr, "matches no streams") || text::contains(
        stderr,
        "Stream map '0:a:0'",
    ) {
        return DecodeVerdict::NoAudio;
    }
    let mut s = "ffmpeg 解码失败: ".to_owned();
    s.append(text::trim(stderr).as_str());
    DecodeVerdict::Failed(s)
}

/// Terms and what they are written as; longer ones stand before shorter ones, so that a
/// part of a term is never replaced first.
pub open spec fn terms() -> Seq<(Seq<char>, Seq<char>)> {
    seq![
        ("标准测试接口语言"@, "STIL"@),
        ("静态时序分析"@, "STA"@),
        ("标准延时格式"@, "SDF"@),
        ("固定型故障"@, "stuck-at"@),
        ("故障覆盖率"@, "coverage"@),
        ("系統维罗格"@, "Verilog"@),
        ("V e r i l o g"@, "Verilog"@),
        ("systemverilog"@, "SystemVerilog"@),
        ("扫描压缩"@, "scan compression"@),
        ("扫描使能"@, "scan enable"@),
        ("固定故障"@, "stuck-at"@),
        ("转换故障"@, "transition fault"@),
        ("扫描测试"@, "scan"@),
        ("艾特皮吉"@, "ATPG"@),
        ("扫描链"@, "scan chain"@),
        ("威格尔"@, "WGL"@),
        ("迪弗蒂"@, "DFT"@),
        ("迪弗特"@, "DFT"@),
        ("M B I S T"@, "MBIST"@),
        ("L B I S T"@, "LBIST"@),
        ("primetime"@, "PrimeTime"@),
        ("A T P G"@, "ATPG"@),
        ("B I S T"@, "BIST"@),
        ("S T I L"@, "STIL"@),
        ("verilog"@, "Verilog"@),
        ("tessent"@, "Tessent"@),
        ("innovus"@, "Innovus"@),
        ("S T A"@, "STA"@),
        ("S D F"@, "SDF"@),
        ("mbist"@, "MBIST"@),
        ("lbist"@, "LBIST"@),
        ("verdi"@, "Verdi"@),
        ("genus"@, "Genus"@),
        ("atpg"@, "ATPG"@),
        ("bist"@, "BIST"@),
        ("dft"@, "DFT"@),
        ("vcs"@, "VCS"@),
    ]
}

fn term_list() -> (v: Vec<(&'static str, &'static str)>)
    ensures
        v@.len() == terms().len(),
        forall|i: int|
            0 <= i < v@.len() ==> (#[trigger] v@[i]).0@ == terms()[i].0 && v@[i].1@ == terms()[i].1,
        forall|i: int| 0 <= i < v@.len() ==> (#[trigger] v@[i]).0@.len() > 0,
{
    let mut v: Vec<(&'static str, &'static str)> = Vec::new();
    v.push(("标准测试接口语言", "STIL"));
    v.push(("静态时序分析", "STA"));
    v.push(("标准延时格式", "SDF"));
    v.push(("固定型故障", "stuck-at"));
    v.push(("故障覆盖率", "coverage"));
    v.push(("系統维罗格", "Verilog"));
    v.push(("V e r i l o g", "Verilog"));
    v.push(("systemverilog", "SystemVerilog"));
    v.push(("扫描压缩", "scan compression"));
    v.push(("扫描使能", "scan enable"));
    v.push(("固定故障", "stuck-at"));
    v.push(("转换故障", "transition fault"));
    v.push(("扫描测试", "scan"));
    v.push(("艾特皮吉", "ATPG"));
    v.push(("扫描链", "scan chain"));
    v.push(("威格尔", "WGL"));
    v.push(("迪弗蒂", "DFT"));
    v.push(("迪弗特", "DFT"));
    v.push(("M B I S T", "MBIST"));
    v.push(("L B I S T", "LBIST"));
    v.push(("primetime", "PrimeTime"));
    v.push(("A T P G", "ATPG"));
    v.push(("B I S T", "BIST"));
    v.push(("S T I L", "STIL"));
    v.push(("verilog", "Verilog"));
    v.push(("tessent", "Tessent"));
    v.push(("innovus", "Innovus"));
    v.push(("S T A", "STA"));
    v.push(("S D F", "SDF"));
    v.push(("mbist", "MBIST"));
    v.push(("lbist", "LBIST"));
    v.push(("verdi", "Verdi"));
    v.push(("genus", "Genus"));
    v.push(("atpg", "ATPG"));
    v.push(("bist", "BIST"));
    v.push(("dft", "DFT"));
    v.push(("vcs", "VCS"));
    proof {
        reveal_strlit("标准测试接口语言");
        reveal_strlit("静态时序分析");
        reveal_strlit("标准延时格式");
        reveal_strlit("固定型故障");
        reveal_strlit("故障覆盖率");
        reveal_strlit("系統维罗格");
        reveal_strlit("V e r i l o g");
        reveal_strlit("systemverilog");
        reveal_strlit("扫描压缩");
        reveal_strlit("扫描使能");
        reveal_strlit("固定故障");
        reveal_strlit("转换故障");
        reveal_strlit("扫描测试");
        reveal_strlit("艾特皮吉");
        reveal_strlit("扫描链");
        reveal_strlit("威格尔");
        reveal_strlit("迪弗蒂");
        reveal_strlit("迪弗特");
        reveal_strlit("M B I S T");
        reveal_strlit("L B I S T");
        reveal_strlit("primetime");
        reveal_strlit("A T P G");
        reveal_strlit("B I S T");
        reveal_strlit("S T I L");
        reveal_strlit("verilog");
        reveal_strlit("tessent");
        reveal_strlit("innovus");
        reveal_strlit("S T A");
        reveal_strlit("S D F");
        reveal_strlit("mbist");
        reveal_strlit("lbist");
        reveal_strlit("verdi");
        reveal_strlit("genus");
        reveal_strlit("atpg");
        reveal_strlit("bist");
        reveal_strlit("dft");
        reveal_strlit("vcs");
    }
    v
}

/// The first `k` terms replaced, one after the other.
pub open spec fn replaced_upto(s: Seq<char>, k: int) -> Seq<char>
    decreases k,
{
    if k <= 0 {
        s
    } else {
        text::replaced(replaced_upto(s, k - 1), terms()[k - 1].0, terms()[k - 1].1)
    }
}

/// Writes technical terms as they are usually written.
pub fn normalize_terms(s: &str) -> (r: String)
    ensures
        r@ == replaced_upto(s@, terms().len() as int),
{
    let list = term_list();
    let mut r = s.to_owned();
    let mut i: usize = 0;
    while i < list.len()
        invariant
            i <= list@.len(),
            list@.len() == terms().len(),
            forall|k: int|
                0 <= k < list@.len() ==> (#[trigger] list@[k]).0@ == terms()[k].0 && list@[k].1@
                    == terms()[k].1,
            forall|k: int| 0 <= k < list@.len() ==> (#[trigger] list@[k]).0@.len() > 0,
            r@ == replaced_upto(s@, i as int),
        decreases list.len() - i,
    {
        assert(list@[i as int].0@.len() > 0);
        let next = text::replace(r.as_str(), list[i].0, list[i].1);
        r = next;
        i = i + 1;
    }
    r
}

/// A point in time, `hh:mm:ss.mmm`.
pub open spec fn time_text(ms: nat) -> Seq<char> {
    text::padded(ms / 3_600_000, 2) + ":"@ + text::padded(ms % 3_600_000 / 60_000, 2) + ":"@
        + text::padded(ms % 60_000 / 1000, 2) + "."@ + text::padded(ms % 1000, 3)
}

/// Writes a point in time, given in milliseconds.
pub fn timestamp(total_ms: u64) -> (r: String)
    ensures
        r@ == time_text(total_ms as nat),
{
    let mut s = text::padded_number(total_ms / 3_600_000, 2);
    s.append(":");
    s.append(text::padded_number((total_ms % 3_600_000) / 60_000, 2).as_str());
    s.append(":");
    s.append(text::padded_number((total_ms % 60_000) / 1000, 2).as_str());
    s.append(".");
    s.append(text::padded_number(total_ms % 1000, 3).as_str());
    s
}

/// A line of a transcript.
#[derive(Debug)]
pub struct TranscriptLine {
    pub start_ms: u64,
    pub end_ms: u64,
    pub text: String,
}

/// A line of a transcript as it is written.
pub open spec fn line_text(l: TranscriptLine) -> Seq<char> {
    "["@ + time_text(l.start_ms as nat) + " --> "@ + time_text(l.end_ms as nat) + "] "@ + l.text@
}

/// The lines of a document, up to the transcript.
pub open spec fn head_lines(
    name: Seq<char>,
    duration_ms: nat,
    count: nat,
    has_audio: bool,
) -> Seq<Seq<char>> {
    seq![
        "# "@ + name,
        Seq::empty(),
        if has_audio {
            "- 音频时长: "@ + time_text(duration_ms)
        } else {
            "- 音频时长: 无音频轨道"@
        },
        "- 语音片段: "@ + text::decimal(count),
        Seq::empty(),
        "## 转录"@,
        Seq::empty(),
    ]
}

/// The lines of the transcript.
pub open spec fn body_lines(lines: Seq<TranscriptLine>, has_audio: bool) -> Seq<Seq<char>> {
    if !has_audio {
        seq!["（无音频轨道）"@]
    } else if lines.len() == 0 {
        seq!["（未检测到语音）"@]
    } else {
        Seq::new(lines.len(), |i: int| line_text(lines[i]))
    }
}

/// The document.
pub open spec fn document(
    name: Seq<char>,
    duration_ms: nat,
    lines: Seq<TranscriptLine>,
    has_audio: bool,
) -> Seq<char> {
    text::join_with(
        (head_lines(name, duration_ms, lines.len(), has_audio) + body_lines(lines, has_audio)).push(
            Seq::empty(),
        ),
        "\n"@,
    )
}

fn push_text(out: &mut Vec<String>, s: String)
    ensures
        text::texts(final(out)@) == text::texts(old(out)@).push(s@),
{
    proof {
        text::texts_push(out@, s);
    }
    out.push(s);
}

fn empty_text() -> (r: String)
    ensures
        r@ == Seq::<char>::empty(),
{
    let s = String::new();
    assert(s@ =~= Seq::<char>::empty());
    s
}

/// Writes the document of a file: its name, how long it is, and what is said in it.
pub fn markdown(name: &str, duration_ms: u64, lines: &Vec<TranscriptLine>, has_audio: bool) -> (r:
    String)
    ensures
        r@ == document(name@, duration_ms as nat, lines@, has_audio),
{
    let mut out: Vec<String> = Vec::new();
    assert(text::texts(out@) =~= Seq::<Seq<char>>::empty());
    let mut title = "# ".to_owned();
    title.append(name);
    push_text(&mut out, title);
    push_text(&mut out, empty_text());
    if has_audio {
        let mut s = "- 音频时长: ".to_owned();
        s.append(timestamp(duration_ms).as_str());
        push_text(&mut out, s);
    } else {
        push_text(&mut out, "- 音频时长: 无音频轨道".to_owned());
    }
    let mut count = "- 语音片段: ".to_owned();
    count.append(text::number(lines.len() as u64).as_str());
    push_text(&mut out, count);
    push_text(&mut out, empty_text());
    push_text(&mut out, "## 转录".to_owned());
    push_text(&mut out, empty_text());
    let ghost head = head_lines(name@, duration_ms as nat, lines@.len(), has_audio);
    assert(text::texts(out@) =~= head);
    if !has_audio {
        push_text(&mut out, "（无音频轨道）".to_owned());
        assert(text::texts(out@) =~= head + body_lines(lines@, has_audio));
    } else if lines.len() == 0 {
        push_text(&mut out, "（未检测到语音）".to_owned());
        assert(text::texts(out@) =~= head + body_lines(lines@, has_audio));
    } else {
        let ghost body = body_lines(lines@, has_audio);
        let mut i: usize = 0;
        assert(text::texts(out@) =~= head + body.take(0));
        while i < lines.len()
            invariant
                i <= lines@.len(),
                lines@.len() > 0,
                has_audio,
                body == body_lines(lines@, has_audio),
                text::texts(out@) == head + body.take(i as int),
            decreases lines.len() - i,
        {
            let l = &lines[i];
            let mut s = "[".to_owned();
            s.append(timestamp(l.start_ms).as_str());
            s.append(" --> ");
            s.append(timestamp(l.end_ms).as_str());
            s.append("] ");
            s.append(l.text.as_str());
            assert(s@ == body[i as int]);
            push_text(&mut out, s);
            assert(body.take(i + 1) =~= body.take(i as int).push(body[i as int]));
            assert(text::texts(out@) =~= head + body.take(i + 1));
            i = i + 1;
        }
        assert(body.take(i as int) =~= body);
    }
    push_text(&mut out, empty_text());
    text::join(&out, "\n")
}

/// The text of a recognised segment: trimmed and with its terms written as usual;
/// nothing where it is blank.
pub fn transcribed(raw: &str) -> (r: Option<String>)
    ensures
        (r is None) == (text::trimmed(raw@).len() == 0),
        r matches Some(s) ==> s@ == replaced_upto(text::trimmed(raw@), terms().len() as int),
{
    let t = text::trim(raw);
    if t.as_str().is_empty() {
        return None;
    }
    Some(normalize_terms(t.as_str()))
}

/// What is known of the input before anything is loaded.
#[derive(Debug)]
pub struct MediaFacts {
    pub input: String,
    pub input_exists: bool,
    /// The extension of the input, if it can be written.
    pub extension: Option<String>,
    pub models: String,
    pub models_exist: bool,
    /// The first model that is missing.
    pub missing_model: Option<String>,
}

/// An extension that can be worked on.
pub open spec fn is_media_extension(ext: Seq<char>) -> bool {
    text::lower(ext) == "mp4"@ || text::lower(ext) == "m4a"@
}

/// What is wrong with the input, if anything.
pub open spec fn media_problem(f: MediaFacts) -> Option<Seq<char>> {
    if !f.input_exists {
        Some("输入文件不存在: "@ + f.input@)
    } else if !(f.extension is Some && is_media_extension(f.extension->0@)) {
        Some("只支持 .mp4 和 .m4a"@)
    } else if !f.models_exist {
        Some("模型目录不存在: "@ + f.models@)
    } else {
        match f.missing_model {
            Some(m) => Some("媒体模型缺失: "@ + m@),
            None => None,
        }
    }
}

/// Checks the input before anything is loaded.
pub fn check_media(f: &MediaFacts) -> (r: Result<(), String>)
    ensures
        match r {
            Ok(_) => media_problem(*f) is None,
            Err(e) => media_problem(*f) == Some(e@),
        },
{
    if !f.input_exists {
        let mut s = "输入文件不存在: ".to_owned();
        s.append(f.input.as_str());
        return Err(s);
    }
    let known: bool = match &f.extension {
        Some(e) => {
            let low = text::lower_text(e.as_str());
            text::same(low.as_str(), "mp4") || text::same(low.as_str(), "m4a")
        },
        None => false,
    };
    if !known {
        return Err("只支持 .mp4 和 .m4a".to_owned());
    }
    if !f.models_exist {
        let mut s = "模型目录不存在: ".to_owned();
        s.append(f.models.as_str());
        return Err(s);
    }
    match &f.missing_model {
        Some(m) => {
            let mut s = "媒体模型缺失: ".to_owned();
            s.append(m.as_str());
            Err(s)
        },
        None => Ok(()),
    }
}

/// Where a program was found for a path that names it or its directory.
#[derive(Clone, Copy, Debug, PartialEq, Eq, Structural)]
pub enum ProgramAt {
    /// The path itself.
    Path,
    /// In the directory.
    Inside,
    /// In `bin` of the directory.
    InBin,
}

/// Finds a program for a path that names it or its directory.
pub fn executable(is_file: bool, is_dir: bool, inside: bool, in_bin: bool) -> (r: Option<ProgramAt>)
    ensures
        r == (if is_file {
            Some(ProgramAt::Path)
        } else if is_dir && inside {
            Some(ProgramAt::Inside)
        } else if is_dir && in_bin {
            Some(ProgramAt::InBin)
        } else {
            None
        }),
{
    if is_file {
        Some(ProgramAt::Path)
    } else if is_dir && inside {
        Some(ProgramAt::Inside)
    } else if is_dir && in_bin {
        Some(ProgramAt::InBin)
    } else {
        None
    }
}

/// Where a model is looked for.
#[derive(Clone, Copy, Debug, PartialEq, Eq, Structural)]
pub enum ModelPlace {
    /// In the directory of the models.
    Direct,
    /// In the directory `models` below it.
    Nested,
}

/// Where a model is taken from: from the directory itself if it lies there.
pub fn model_file(direct_is_file: bool) -> (r: ModelPlace)
    ensures
        r == (if direct_is_file {
            ModelPlace::Direct
        } else {
            ModelPlace::Nested
        }),
{
    if direct_is_file {
        ModelPlace::Direct
    } else {
        ModelPlace::Nested
    }
}

/// Where a component was found.
#[derive(Clone, Copy, Debug, PartialEq, Eq, Structural)]
pub enum Source {
    /// The user named it.
    Named,
    /// The environment names it.
    Environment,
    /// The candidate with this number.
    Candidate(usize),
}

/// The places below the models where the speech library is looked for, in order.
pub open spec fn sherpa_places() -> Seq<Seq<char>> {
    seq![
        "sherpa-onnx-c-api.dll"@,
        "sherpa-onnx.dll"@,
        "bin/sherpa-onnx-c-api.dll"@,
        "bin/sherpa-onnx.dll"@,
        "native/sherpa-onnx-c-api.dll"@,
        "native/sherpa-onnx.dll"@,
        "../bin/sherpa-onnx-c-api.dll"@,
        "../bin/sherpa-onnx.dll"@,
        "../native/sherpa-onnx-c-api.dll"@,
        "../native/sherpa-onnx.dll"@,
        "../sherpa-onnx-c-api.dll"@,
        "../sherpa-onnx.dll"@,
    ]
}

/// The places where the speech library is looked for.
pub fn sherpa_candidates() -> (r: Vec<String>)
    ensures
        text::texts(r@) == sherpa_places(),
{
    let mut v: Vec<String> = Vec::new();
    v.push("sherpa-onnx-c-api.dll".to_owned());
    v.push("sherpa-onnx.dll".to_owned());
    v.push("bin/sherpa-onnx-c-api.dll".to_owned());
    v.push("bin/sherpa-onnx.dll".to_owned());
    v.push("native/sherpa-onnx-c-api.dll".to_owned());
    v.push("native/sherpa-onnx.dll".to_owned());
    v.push("../bin/sherpa-onnx-c-api.dll".to_owned());
    v.push("../bin/sherpa-onnx.dll".to_owned());
    v.push("../native/sherpa-onnx-c-api.dll".to_owned());
    v.push("../native/sherpa-onnx.dll".to_owned());
    v.push("../sherpa-onnx-c-api.dll".to_owned());
    v.push("../sherpa-onnx.dll".to_owned());
    assert(text::texts(v@) =~= sherpa_places());
    v
}

/// Finds the speech library: what the environment names goes unchecked before the
/// places, of which the first that exists is taken.
pub fn find_sherpa(in_environment: bool, present: &Vec<bool>) -> (r: Option<Source>)
    ensures
        match r {
            Some(Source::Named) => false,
            Some(Source::Environment) => in_environment,
            Some(Source::Candidate(k)) => !in_environment && k < present@.len() && present@[k as int]
                && forall|i: int| 0 <= i < k ==> !#[trigger] present@[i],
            None => !in_environment && forall|i: int|
                0 <= i < present@.len() ==> !#[trigger] present@[i],
        },
{
    if in_environment {
        return Some(Source::Environment);
    }
    let mut i: usize = 0;
    while i < present.len()
        invariant
            i <= present@.len(),
            !in_environment,
            forall|k: int| 0 <= k < i ==> !#[trigger] present@[k],
        decreases present.len() - i,
    {
        if present[i] {
            return Some(Source::Candidate(i));
        }
        i = i + 1;
    }
    None
}

/// The places below the models where the decoder is looked for, in order.
pub open spec fn ffmpeg_places() -> Seq<Seq<char>> {
    seq![
        "ffmpeg/ffmpeg.exe"@,
        "ffmpeg/bin/ffmpeg.exe"@,
        "bin/ffmpeg.exe"@,
        "ffmpeg.exe"@,
        "../ffmpeg/ffmpeg.exe"@,
        "../ffmpeg/bin/ffmpeg.exe"@,
        "../bin/ffmpeg.exe"@,
    ]
}

/// The places where the decoder is looked for.
pub fn ffmpeg_candidates() -> (r: Vec<String>)
    ensures
        text::texts(r@) == ffmpeg_places(),
{
    let mut v: Vec<String> = Vec::new();
    v.push("ffmpeg/ffmpeg.exe".to_owned());
    v.push("ffmpeg/bin/ffmpeg.exe".to_owned());
    v.push("bin/ffmpeg.exe".to_owned());
    v.push("ffmpeg.exe".to_owned());
    v.push("../ffmpeg/ffmpeg.exe".to_owned());
    v.push("../ffmpeg/bin/ffmpeg.exe".to_owned());
    v.push("../bin/ffmpeg.exe".to_owned());
    assert(text::texts(v@) =~= ffmpeg_places());
    v
}

/// Why no decoder was found.
#[derive(Clone, Copy, Debug, PartialEq, Eq, Structural)]
pub enum FfmpegError {
    /// There is none where the user said.
    Named,
    /// There is none where the environment says.
    Environment,
    /// There is none in any of the places.
    Missing,
}

/// The message of an error; the path is the one that the user named.
pub open spec fn ffmpeg_error_text(e: FfmpegError, path: Seq<char>) -> Seq<char> {
    match e {
        FfmpegError::Named => "指定的 ffmpeg 路径无效: "@ + path,
        FfmpegError::Environment => "ALL2MARKDOWN_FFMPEG 不是有效的 ffmpeg.exe 路径"@,
        FfmpegError::Missing => "缺少固定版本 ffmpeg.exe；请初始化媒体可选组件或使用 --ffmpeg"@,
    }
}

impl FfmpegError {
    /// The message of the error; the path is the one that the user named.
    pub fn message(self, path: &str) -> (r: String)
        ensures
            r@ == ffmpeg_error_text(self, path@),
    {
        match self {
            FfmpegError::Named => {
                let mut s = "指定的 ffmpeg 路径无效: ".to_owned();
                s.append(path);
                s
            },
            FfmpegError::Environment => "ALL2MARKDOWN_FFMPEG 不是有效的 ffmpeg.exe 路径".to_owned(),
            FfmpegError::Missing => {
                "缺少固定版本 ffmpeg.exe；请初始化媒体可选组件或使用 --ffmpeg".to_owned()
            },
        }
    }
}

/// The first of the places with a decoder, from the place with number `i` on.
pub open spec fn first_found(found: Seq<Option<ProgramAt>>, i: int) -> Result<
    (Source, ProgramAt),
    FfmpegError,
>
    decreases found.len() - i,
{
    if i < 0 || i >= found.len() {
        Err(FfmpegError::Missing)
    } else {
        match found[i] {
            Some(at) => Ok((Source::Candidate(i as usize), at)),
            None => first_found(found, i + 1),
        }
    }
}

/// Which decoder is taken. What the user or the environment names is the only
/// candidate; a path that names none is an error, not a reason to look further.
pub open spec fn ffmpeg_choice(
    named: Option<Option<ProgramAt>>,
    environment: Option<Option<ProgramAt>>,
    found: Seq<Option<ProgramAt>>,
) -> Result<(Source, ProgramAt), FfmpegError> {
    match (named, environment) {
        (Some(Some(at)), _) => Ok((Source::Named, at)),
        (Some(None), _) => Err(FfmpegError::Named),
        (None, Some(Some(at))) => Ok((Source::Environment, at)),
        (None, Some(None)) => Err(FfmpegError::Environment),
        (None, None) => first_found(found, 0),
    }
}

/// Finds the decoder. For the path that the user named, for that of the environment and
/// for each place, the caller says where the program was found.
pub fn find_ffmpeg(
    named: Option<Option<ProgramAt>>,
    environment: Option<Option<ProgramAt>>,
    found: &Vec<Option<ProgramAt>>,
) -> (r: Result<(Source, ProgramAt), FfmpegError>)
    ensures
        r == ffmpeg_choice(named, environment, found@),
{
    match named {
        Some(Some(at)) => return Ok((Source::Named, at)),
        Some(None) => return Err(FfmpegError::Named),
        None => {},
    }
    match environment {
        Some(Some(at)) => return Ok((Source::Environment, at)),
        Some(None) => return Err(FfmpegError::Environment),
        None => {},
    }
    let mut i: usize = 0;
    while i < found.len()
        invariant
            i <= found@.len(),
            ffmpeg_choice(named, environment, found@) == first_found(found@, i as int),
        decreases found.len() - i,
    {
        if let Some(at) = found[i] {
            return Ok((Source::Candidate(i), at));
        }
        i = i + 1;
    }
    Err(FfmpegError::Missing)
}

/// The document of a file after decoding: without samples it has no sound, and nothing
/// was recognised.
pub fn finished(name: &str, samples: u64, duration_ms: u64, lines: &Vec<TranscriptLine>) -> (r:
    String)
    ensures
        r@ == (if samples == 0 {
            document(name@, 0, Seq::empty(), false)
        } else {
            document(name@, duration_ms as nat, lines@, true)
        }),
{
    if samples == 0 {
        let none: Vec<TranscriptLine> = Vec::new();
        assert(none@ =~= Seq::empty());
        return markdown(name, 0, &none, false);
    }
    markdown(name, duration_ms, lines, true)
}

/// How many threads are used: at least one.
pub fn thread_count(wanted: i32) -> (r: i32)
    ensures
        r == (if wanted < 1 {
            1
        } else {
            wanted
        }),
{
    if wanted < 1 {
        1
    } else {
        wanted
    }
}

/// A sample is its two bytes as a number with a sign, the low byte first.
pub proof fn law_samples_are_signed(low: u8, high: u8)
    ensures
        high < 128 ==> sample_of(low, high) == low as int + 256 * (high as int),
        high >= 128 ==> sample_of(low, high) == low as int + 256 * (high as int) - 65536,
{
}

/// Two bytes make a sample; an odd one is left over.
pub proof fn law_samples_of_bytes(bytes: Seq<u8>, low: u8, high: u8)
    requires
        bytes.len() % 2 == 0,
    ensures
        samples_of(bytes + seq![low, high]) == samples_of(bytes).push(sample_of(low, high)),
        samples_of(Seq::empty()) == Seq::<i16>::empty(),
        samples_of(bytes.push(low)) == samples_of(bytes),
        left_over(bytes) is None,
        left_over(bytes.push(low)) == Some(low),
{
    let more = bytes + seq![low, high];
    assert forall|i: int| 0 <= i < samples_of(more).len() implies samples_of(more)[i] == samples_of(
        bytes,
    ).push(sample_of(low, high))[i] by {
        if i < samples_of(bytes).len() {
            assert(more[2 * i] == bytes[2 * i] && more[2 * i + 1] == bytes[2 * i + 1]);
        }
    }
    assert(samples_of(more) =~= samples_of(bytes).push(sample_of(low, high)));
    assert(samples_of(bytes.push(low)) =~= samples_of(bytes));
    assert(samples_of(Seq::empty()) =~= Seq::<i16>::empty());
}

/// A point in time is written in hours, minutes, seconds and thousandths.
pub proof fn law_times_are_written(h: nat, m: nat, s: nat, k: nat)
    requires
        m < 60,
        s < 60,
        k < 1000,
    ensures
        time_text(3_600_000 * h + 60_000 * m + 1000 * s + k) == text::padded(h, 2) + ":"@
            + text::padded(m, 2) + ":"@ + text::padded(s, 2) + "."@ + text::padded(k, 3),
{
    let ms = 3_600_000 * h + 60_000 * m + 1000 * s + k;
    assert(ms / 3_600_000 == h);
    assert(ms % 3_600_000 == 60_000 * m + 1000 * s + k);
    assert(ms % 3_600_000 / 60_000 == m);
    assert(ms % 60_000 == 1000 * s + k);
    assert(ms % 60_000 / 1000 == s);
    assert(ms % 1000 == k);
}

/// A document begins with the name; it tells how long the sound is, or that there is none,
/// and how many segments there are.
pub proof fn law_what_a_document_begins_with(name: Seq<char>, ms: nat, count: nat)
    ensures
        head_lines(name, ms, count, true)[0] == "# "@ + name,
        head_lines(name, ms, count, true)[2] == "- 音频时长: "@ + time_text(ms),
        head_lines(name, ms, count, false)[2] == "- 音频时长: 无音频轨道"@,
        head_lines(name, ms, count, true)[3] == "- 语音片段: "@ + text::decimal(count),
        head_lines(name, ms, count, true)[5] == "## 转录"@,
{
}

/// What is said stands in the document line by line, in order, each with its times; a file
/// without sound or without speech says so.
pub proof fn law_what_a_document_holds(lines: Seq<TranscriptLine>, i: int)
    requires
        0 <= i < lines.len(),
    ensures
        body_lines(lines, true).len() == lines.len(),
        body_lines(lines, true)[i] == "["@ + time_text(lines[i].start_ms as nat) + " --> "@
            + time_text(lines[i].end_ms as nat) + "] "@ + lines[i].text@,
        body_lines(lines, false) == seq!["（无音频轨道）"@],
        body_lines(Seq::empty(), true) == seq!["（未检测到语音）"@],
{
}

/// An input can be worked on exactly where it is there with one of the two extensions, and
/// the models are there; the message tells what is missing first.
pub proof fn law_which_inputs_can_be_worked_on(f: MediaFacts)
    ensures
        media_problem(f) is None <==> f.input_exists && (f.extension matches Some(e) && (
        text::lower(e@) == "mp4"@ || text::lower(e@) == "m4a"@)) && f.models_exist
            && f.missing_model is None,
        !f.input_exists ==> media_problem(f) == Some("输入文件不存在: "@ + f.input@),
        f.input_exists && f.extension is None ==> media_problem(f) == Some(
            "只支持 .mp4 和 .m4a"@,
        ),
{
}

/// What the user names is taken or refused; then what the environment names; only without
/// both are the places looked at, and the first that has the program is taken.
pub proof fn law_which_decoder_is_taken(
    named: Option<Option<ProgramAt>>,
    environment: Option<Option<ProgramAt>>,
    found: Seq<Option<ProgramAt>>,
    at: ProgramAt,
)
    requires
        found.len() <= usize::MAX,
    ensures
        ffmpeg_choice(Some(Some(at)), environment, found) == Ok::<(Source, ProgramAt), FfmpegError>(
            (Source::Named, at),
        ),
        ffmpeg_choice(Some(None), environment, found) == Err::<(Source, ProgramAt), FfmpegError>(
            FfmpegError::Named,
        ),
        ffmpeg_choice(None, Some(Some(at)), found) == Ok::<(Source, ProgramAt), FfmpegError>(
            (Source::Environment, at),
        ),
        ffmpeg_choice(None, Some(None), found) == Err::<(Source, ProgramAt), FfmpegError>(
            FfmpegError::Environment,
        ),
        match ffmpeg_choice(None, None, found) {
            Ok((source, p)) => exists|k: int|
                0 <= k < found.len() && source == Source::Candidate(k as usize)
                    && #[trigger] found[k] == Some(p) && forall|j: int|
                    0 <= j < k ==> (#[trigger] found[j]) is None,
            Err(e) => e == FfmpegError::Missing && forall|j: int|
                0 <= j < found.len() ==> (#[trigger] found[j]) is None,
        },
{
    first_is_found(found, 0);
}

proof fn first_is_found(found: Seq<Option<ProgramAt>>, i: int)
    requires
        0 <= i <= found.len() <= usize::MAX,
    ensures
        match first_found(found, i) {
            Ok((source, p)) => exists|k: int|
                i <= k < found.len() && source == Source::Candidate(k as usize)
                    && #[trigger] found[k] == Some(p) && forall|j: int|
                    i <= j < k ==> (#[trigger] found[j]) is None,
            Err(e) => e == FfmpegError::Missing && forall|j: int|
                i <= j < found.len() ==> (#[trigger] found[j]) is None,
        },
    decreases found.len() - i,
{
    if i < found.len() {
        first_is_found(found, i + 1);
        match found[i] {
            Some(p) => {
                assert(found[i] == Some(p));
            },
            None => {
                match first_found(found, i + 1) {
                    Ok((source, p)) => {
                        let k = choose|k: int|
                            i + 1 <= k < found.len() && source == Source::Candidate(k as usize)
                                && #[trigger] found[k] == Some(p) && forall|j: int|
                                i + 1 <= j < k ==> (#[trigger] found[j]) is None;
                        assert(found[k] == Some(p));
                    },
                    Err(_) => {},
                }
            },
        }
    }
}

/// A text without any of the terms stays as it is.
pub proof fn law_other_words_stay(s: Seq<char>, k: int)
    requires
        0 <= k <= terms().len(),
        forall|i: int|
            0 <= i < terms().len() ==> (#[trigger] terms()[i]).0.len() > 0 && !text::has_text(
                s,
                terms()[i].0,
            ),
    ensures
        replaced_upto(s, k) == s,
    decreases k,
{
    if k > 0 {
        law_other_words_stay(s, k - 1);
        let t = terms()[k - 1];
        assert(!text::has_text(s, t.0));
        assert forall|j: int| !(#[trigger] text::occurs_at(s, t.0, j)) by {}
        text::law_replaced(s, t.0, t.1, 0);
    }
}

/// The words of the decoder for a file without sound are found wherever they stand.
pub proof fn law_missing_sound_is_told(before: Seq<char>, behind: Seq<char>)
    ensures
        says_no_audio(before + "matches no streams"@ + behind),
        says_no_audio(before + "Stream map '0:a:0'"@ + behind),
{
    let a = before + "matches no streams"@ + behind;
    let n = before.len() as int;
    assert(a.subrange(n, n + "matches no streams"@.len()) =~= "matches no streams"@);
    assert(text::occurs_at(a, "matches no streams"@, n));
    let b = before + "Stream map '0:a:0'"@ + behind;
    assert(b.subrange(n, n + "Stream map '0:a:0'"@.len()) =~= "Stream map '0:a:0'"@);
    assert(text::occurs_at(b, "Stream map '0:a:0'"@, n));
}

} // verus!
