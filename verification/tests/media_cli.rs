use jchtools::cli::{
    action_line, analyze_mode, command, ensure_task_db, kind_word, may_apply, may_write_defaults,
    plan_stats, AnalyzeMode, CliArg, CliArgs, CliError, Command, HELP,
};
use jchtools::config::DeleteMode;
use jchtools::media::{
    check_media, executable, ffmpeg_candidates, find_ffmpeg, find_sherpa, finished, judge_decode,
    markdown, model_file, next_window, normalize_terms, sherpa_candidates, thread_count, timestamp,
    transcribed, DecodeVerdict, FfmpegError, MediaFacts, ModelPlace, Pcm16Stream, ProgramAt, Source,
    TranscriptLine,
};
use jchtools::model::{Action, ActionKind};

fn milliseconds(seconds: f32) -> u64 {
    (seconds.max(0.0) * 1000.0).round() as u64
}

#[test]
fn timestamp_matches_legacy_format() {
    assert_eq!(timestamp(milliseconds(3661.5)), "01:01:01.500");
    assert_eq!(timestamp(milliseconds(-1.0)), "00:00:00.000");
}

#[test]
fn terminology_replacements_are_fixed() {
    assert_eq!(
        normalize_terms("扫描链和静态时序分析，A T P G 与未知词"),
        "scan chain和STA，ATPG 与未知词"
    );
    assert_eq!(normalize_terms("systemverilog"), "SystemVerilog");
}

#[test]
fn markdown_has_empty_audio_states() {
    assert!(markdown("silent.mp4", 0, &Vec::new(), true).contains("（未检测到语音）"));
    assert!(markdown("video.mp4", 0, &Vec::new(), false).contains("无音频轨道"));
}

#[test]
fn pcm_stream_preserves_sample_split_across_reads() {
    let mut decoder = Pcm16Stream::new();
    let mut samples: Vec<i16> = Vec::new();
    assert_eq!(decoder.push(&vec![0x00], &mut samples), 0);
    assert_eq!(decoder.push(&vec![0x40, 0x00, 0x80], &mut samples), 2);
    decoder.finish().expect("a whole sample leaves no byte");
    let floats: Vec<f32> = samples.iter().map(|s| f32::from(*s) / 32768.0).collect();
    assert_eq!(floats, vec![0.5, -1.0]);
}

#[test]
fn pcm_stream_rejects_truncated_final_sample() {
    let mut decoder = Pcm16Stream::new();
    let mut samples = Vec::new();
    assert_eq!(decoder.push(&vec![0x7f], &mut samples), 0);
    assert!(decoder.finish().is_err());
    assert!(decoder.finish().is_ok());
}

#[test]
fn pieces_of_a_stream_do_not_matter() {
    let bytes: Vec<u8> = (0..101u8).map(|b| b.wrapping_mul(37)).collect();
    let mut whole = Vec::new();
    let mut at_once = Pcm16Stream::new();
    assert_eq!(at_once.push(&bytes, &mut whole), 50);
    for step in 1..9 {
        let mut out = Vec::new();
        let mut stream = Pcm16Stream::new();
        for chunk in bytes.chunks(step) {
            stream.push(&chunk.to_vec(), &mut out);
        }
        assert_eq!(out, whole);
        assert_eq!(stream, at_once);
    }
}

#[test]
fn windows_are_cut_from_the_front() {
    let mut pending: Vec<i16> = (0..600).collect();
    let window = next_window(&mut pending).unwrap();
    assert_eq!((window.len(), window[511]), (512, 511));
    assert_eq!((pending.len(), pending[0]), (88, 512));
    assert!(next_window(&mut pending).is_none());
    assert_eq!(pending.len(), 88);
}

#[test]
fn transcripts_are_written_line_by_line() {
    let lines = vec![TranscriptLine {
        start_ms: 1500,
        end_ms: 62_003,
        text: "扫描".to_string(),
    }];
    assert_eq!(
        markdown("a.mp4", 90_000, &lines, true),
        "# a.mp4\n\n- 音频时长: 00:01:30.000\n- 语音片段: 1\n\n## 转录\n\n[00:00:01.500 --> 00:01:02.003] 扫描\n"
    );
    assert_eq!(finished("a.mp4", 0, 5, &lines), markdown("a.mp4", 0, &Vec::new(), false));
    assert_eq!(finished("a.mp4", 1, 90_000, &lines), markdown("a.mp4", 90_000, &lines, true));
    assert_eq!(transcribed("  \n"), None);
    assert_eq!(transcribed(" dft 流程 "), Some("DFT 流程".to_string()));
}

#[test]
fn decoding_is_judged_by_its_words() {
    let broken = Err("ffmpeg 输出的 PCM 包含不完整的最后一个字节");
    assert!(matches!(judge_decode(Ok(()), true, "x"), DecodeVerdict::Samples));
    assert!(matches!(
        judge_decode(Ok(()), false, "Stream map '0:a:0' matches no streams."),
        DecodeVerdict::NoAudio
    ));
    assert!(
        matches!(judge_decode(Ok(()), false, " bad file \n"), DecodeVerdict::Failed(s) if s == "ffmpeg 解码失败: bad file")
    );
    assert!(matches!(judge_decode(broken, true, ""), DecodeVerdict::Failed(_)));
}

#[test]
fn media_input_is_checked_in_order() {
    let mut facts = MediaFacts {
        input: "a.MP4".to_string(),
        input_exists: true,
        extension: Some("MP4".to_string()),
        models: "m".to_string(),
        models_exist: true,
        missing_model: None,
    };
    assert!(check_media(&facts).is_ok());
    facts.missing_model = Some("m/vad".to_string());
    assert_eq!(check_media(&facts).unwrap_err(), "媒体模型缺失: m/vad");
    facts.models_exist = false;
    assert_eq!(check_media(&facts).unwrap_err(), "模型目录不存在: m");
    facts.extension = Some("mkv".to_string());
    assert_eq!(check_media(&facts).unwrap_err(), "只支持 .mp4 和 .m4a");
    facts.input_exists = false;
    assert_eq!(check_media(&facts).unwrap_err(), "输入文件不存在: a.MP4");
    assert_eq!(thread_count(0), 1);
    assert_eq!(thread_count(4), 4);
}

#[test]
fn components_are_looked_for_in_order() {
    assert_eq!(sherpa_candidates().len(), 12);
    assert_eq!(ffmpeg_candidates()[3], "ffmpeg.exe");
    assert_eq!(find_sherpa(true, &vec![false]), Some(Source::Environment));
    assert_eq!(
        find_sherpa(false, &vec![false, true, true]),
        Some(Source::Candidate(1))
    );
    assert_eq!(find_sherpa(false, &vec![false]), None);
    assert_eq!(executable(true, false, true, true), Some(ProgramAt::Path));
    assert_eq!(executable(false, true, false, true), Some(ProgramAt::InBin));
    assert_eq!(executable(false, false, true, true), None);
    assert_eq!(
        find_ffmpeg(Some(None), Some(Some(ProgramAt::Path)), &vec![]),
        Err(FfmpegError::Named)
    );
    assert_eq!(
        find_ffmpeg(None, Some(None), &vec![Some(ProgramAt::Path)]),
        Err(FfmpegError::Environment)
    );
    assert_eq!(
        find_ffmpeg(None, None, &vec![None, Some(ProgramAt::Inside)]),
        Ok((Source::Candidate(1), ProgramAt::Inside))
    );
    assert_eq!(find_ffmpeg(None, None, &vec![None]), Err(FfmpegError::Missing));
    assert_eq!(FfmpegError::Named.message("x"), "指定的 ffmpeg 路径无效: x");
    assert_eq!(model_file(true), ModelPlace::Direct);
    assert_eq!(model_file(false), ModelPlace::Nested);
}

fn args(list: &[&str]) -> Vec<CliArg> {
    list.iter()
        .map(|s| CliArg {
            text: s.to_string(),
            utf8: true,
        })
        .collect()
}

fn parse(c: Command, list: &[&str]) -> Result<CliArgs, CliError> {
    let (values, switches) = c.flags();
    CliArgs::parse(&args(list), &values, &switches)
}

#[test]
fn arguments_are_sorted_by_their_flags() {
    let a = parse(
        Command::Analyze,
        &["root", "--config", "c.json", "--extract", "-", "--config", "d"],
    )
    .unwrap();
    assert_eq!(a.positionals, vec![0, 4]);
    assert_eq!(a.value("--config"), Some(2));
    assert_eq!(a.value("--state"), None);
    assert!(a.has("--extract") && !a.has("--yes"));
    assert_eq!(a.positional(1, "用法"), Ok(4));
    assert_eq!(a.positional(2, "x"), Err("用法：x".to_string()));
    let list = ["--state"];
    let e = parse(Command::Analyze, &list).unwrap_err();
    assert_eq!(e, CliError::MissingValue(0));
    assert_eq!(e.message(&args(&list)), "参数 --state 缺少对应的值");
    let list = ["--state", "--yes"];
    let e = parse(Command::Analyze, &list).unwrap_err();
    assert_eq!(e.message(&args(&list)), "参数 --state 的值不能以 - 开头：--yes");
    let list = ["a", "--foo"];
    let e = parse(Command::Inspect, &list).unwrap_err();
    assert_eq!(
        e.message(&args(&list)),
        "未知参数：--foo\n用法可用 jchtools-cli --help 查看"
    );
    let odd = vec![CliArg {
        text: "-\u{fffd}".to_string(),
        utf8: false,
    }];
    let e = CliArgs::parse(&odd, &Vec::new(), &Vec::new()).unwrap_err();
    assert_eq!(e, CliError::NotText(0));
    assert_eq!(e.message(&odd), "无法解析的参数（不是有效 UTF-8）：-\u{fffd}");
}

#[test]
fn commands_are_recognised() {
    assert_eq!(command(&args(&[])), Command::Usage);
    assert_eq!(command(&args(&["apply", "-h"])), Command::Help);
    assert_eq!(command(&args(&["--version"])), Command::Version);
    assert_eq!(command(&args(&["defaults"])), Command::Defaults);
    assert_eq!(command(&args(&["report", "x"])), Command::Report);
    assert_eq!(command(&args(&["frobnicate"])), Command::Unknown);
    assert!(HELP.contains("jchtools-cli analyze"));
    assert!(may_write_defaults("c.json", true, true).is_ok());
    assert_eq!(
        may_write_defaults("c.json", true, false).unwrap_err(),
        "配置文件已存在：c.json；如确认覆盖请附加 --force"
    );
    assert!(analyze_mode(true, false).is_err());
    assert_eq!(analyze_mode(true, true), Ok(AnalyzeMode::Extract));
    assert_eq!(analyze_mode(false, true), Ok(AnalyzeMode::PlanConfirmed));
    assert_eq!(analyze_mode(false, false), Ok(AnalyzeMode::Plan));
    assert!(may_apply("t", false, true).unwrap_err().contains("--yes"));
    assert!(may_apply("t", true, false).unwrap_err().ends_with("：t"));
    assert!(may_apply("t", true, true).is_ok());
    assert!(ensure_task_db("t", false).is_err());
}

#[test]
fn plans_are_counted_and_listed() {
    let make = |id: i64, kind: ActionKind, selected: bool| Action {
        id,
        kind,
        source: "a.txt".to_string(),
        target: None,
        reason: "重复".to_string(),
        expected: None,
        keeper: None,
        hash: None,
        mode: DeleteMode::Keep,
        selected,
        state: "pending".to_string(),
    };
    let list = vec![
        make(1, ActionKind::Delete, true),
        make(2, ActionKind::Delete, false),
        make(3, ActionKind::Hardlink, true),
        make(4, ActionKind::EmptyDirectory, false),
    ];
    assert_eq!(
        plan_stats(&list).line(),
        "计划统计：删除 2（已选 1）、移动 0（已选 0）、硬链接 1（已选 1）、空目录复查 1（已选 0）"
    );
    assert_eq!(action_line(&list[0]), "1 删除 a.txt -> - | 重复 [pending]");
    assert_eq!(kind_word(ActionKind::Move), "移动");
}
