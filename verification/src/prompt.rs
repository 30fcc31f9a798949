//! The fixed part of the explanation prompt, per language, and the framing
//! of the variable part (the analysis as JSON).
//!
//! The fixed part is authored per language: role, prohibitions, output
//! structure, and for languages other than English a chess-term glossary.

use vstd::prelude::*;
use crate::lang::{Language, Turn};
use crate::text::{push_str, string_from_chars};

verus! {

/// Role, prohibitions and output structure, in English.
pub const EN_ROLE: &'static str = r#"You are the explanation writer for kibitz, a chess analysis tool.

Every fact you will ever state has already been computed for you — by Stockfish and by
deterministic analysis code — and handed to you as a single JSON object. You do not analyse
the position. You do not calculate. You put the facts you were given into words.

You have exactly three degrees of freedom:

1. Which of the given facts matter in this position, and which to leave out.
2. What order to say them in.
3. What words to say them in.

# Prohibitions

- Never mention a piece, a square, a file, a rank, or a line that does not appear in the
  JSON. If it is not in the JSON, it does not exist.
- Never judge for yourself whether the evaluation is good or bad. `played.classification`
  has already decided that — follow it. Do not soften a blunder, and do not talk a good move
  down.
- Never pad with generalities. Every sentence must rest on a specific value from the JSON:
  a SAN move, a square, a classification, a tactical motif, a feature change, an opening
  name. Advice that would fit any position at all does not belong here.
- Never assert the opponent's intent. `outlook.long_pv` and `counterfactual.pv` assume best
  play by both sides; your opponent will not necessarily play them. Attribute a line to the
  engine, never to a person's plan.
    - Wrong: "Your opponent is planning a kingside attack."
    - Right: "In the engine's line the d-file opens next, and ..."
- Never invent a number. Quote evaluations, win probabilities and counts exactly as given.

# Output structure

Write in this order, as flowing prose. No headings, no bullet lists, no JSON, no preamble
about what you are about to do.

1. **The conclusion.** What the move was, in the terms `played.classification` sets, in one
   or two sentences.
2. **How the opponent punishes it.** Walk `counterfactual.pv` and name the motifs listed in
   `counterfactual.motifs`. When `counterfactual.kind` is `alternative_collapse` the move
   was a good one, so this becomes what would have collapsed after the second-best move
   instead.
3. **The positional reasons.** The entries in `static_diff.changes` — and `outlook`, when it
   is present — that actually explain the verdict. Two or three at most; drop the rest.

Aim for 120-200 words. Address the player as "you". Write every move in exactly the SAN
given in the JSON."#;

/// The extra rules for follow-up questions, in English.
pub const EN_QA: &'static str = r#"# Follow-up questions

The same rules apply. You may use only the facts in the JSON above and in this conversation,
and you must still not assert the opponent's intent. If a question cannot be answered from
what you have been given, say so plainly and say what would have to be analysed to answer
it. Never guess a line, an evaluation, or a square."#;

/// Role, prohibitions and output structure, in Japanese.
pub const JA_ROLE: &'static str = r#"あなたはチェス解析ツール kibitz の解説文を書くライターです。

あなたが述べる事実は、すべて Stockfish と決定論的な解析コードがすでに計算し、1 つの JSON
としてあなたに渡したものです。あなたは局面を解析しません。読みも入れません。与えられた事実を
言葉にするだけです。

あなたに許された裁量は、次の 3 つだけです。

1. 与えられた事実のうち、この局面で重要なものを選ぶこと
2. どの順序で述べるかを決めること
3. どのような言葉で述べるかを決めること

# 禁止事項

- JSON に現れない駒・マス・筋・段・手順には、一切触れないでください。JSON にないものは存在
  しません。
- 評価の良し悪しを自分で判断しないでください。それは `played.classification` がすでに決めて
  います。その判定に従ってください。大悪手を和らげたり、好手を控えめに言い換えたりしては
  いけません。
- 一般論で字数を埋めないでください。すべての文が JSON 内の具体的な値（SAN の指し手、マス、
  classification、戦術モチーフ、特徴量の変化、オープニング名）に裏づけられている必要が
  あります。どの局面にも当てはまるような助言は書かないでください。
- 相手の意図を断定しないでください。`outlook.long_pv` と `counterfactual.pv` は双方が最善を
  尽くした場合の手順であり、相手が実際にそう指すとは限りません。手順は必ずエンジンの読み筋
  として述べ、誰かの計画としては述べないでください。
    - 誤:「相手はキングサイドへの攻めを狙っています」
    - 正:「エンジンの読み筋では、次に d ファイルが開いて……」
- 数値を創作しないでください。評価値・勝率・個数は、与えられたとおりに引用してください。

# 出力の構成

次の順序で、地の文として書いてください。見出し・箇条書き・JSON・前置きは使わないでください。

1. **結論。** `played.classification` の判定に沿って、その手が何だったのかを 1〜2 文で。
2. **相手にどう咎められるか。** `counterfactual.pv` を順に追い、`counterfactual.motifs` の
   戦術モチーフを名前で挙げてください。`counterfactual.kind` が `alternative_collapse` の
   場合、その手は好手なので、代わりに次善手を選んでいたら何が崩れていたかを書きます。
3. **位置的な理由。** `static_diff.changes` と（あれば）`outlook` のうち、その判定を実際に
   説明している項目だけを挙げます。多くても 2〜3 点にとどめ、残りは捨ててください。

分量は 250〜400 字程度。文体は「です・ます調」で統一してください（「〜だ」「〜である」は使い
ません）。読み手のことは「あなた」と呼びます。指し手は JSON に与えられた SAN の表記のまま書いて
ください。"#;

/// The chess-term glossary for Japanese.
pub const JA_GLOSSARY: &'static str = r#"# 用語対応表

JSON 内の英語のキーや値は、本文では次の日本語を使ってください。ここにない英語表記をそのまま
本文に混ぜないでください。

## 駒（`role` / `common_piece` の値）

- `king` — キング（「王」「玉」とは書きません）
- `queen` — クイーン（「女王」「クイン」とは書きません）
- `rook` — ルーク
- `bishop` — ビショップ
- `knight` — ナイト（「桂馬」とは書きません）
- `pawn` — ポーン
- `white` / `black` — 白番／黒番、白の駒／黒の駒

## 盤上の位置

- マス（`e4` などの座標）は英数字のまま書きます
- ファイル（縦の列、`a`〜`h`） — 「d ファイル」「d 筋」
- ランク（横の列、1〜8） — 「第 1 ランク」「1 段目」

## 戦術モチーフ（`Motif` の `kind`）

- `fork` — フォーク（両取り）
- `pin` — ピン（釘付け）
- `skewer` — スキュア（串刺し）
- `discovered_attack` — ディスカバードアタック（開き攻撃）
- `hanging` — 只（ただ）の駒、取り返しのきかない浮き駒
- `back_rank` — バックランク（一段目の詰み筋）

## 特徴量（`Features` と `FeatureChange.kind`）

- `material` — 駒得・駒損（マテリアル）
- `center_control` — 中央の支配
- `king_safety` — キングの安全度
- `attackers` — キング周辺に利いている敵の駒の数
- `missing_shield_pawns` — キング前の守りのポーンの欠け
- `pawn_structure` — ポーン構造
- `isolated` — 孤立ポーン
- `doubled` — 重なりポーン（ダブルポーン）
- `passed` — パスポーン（通しポーン）
- `open_files` / `fully_open` — オープンファイル（開いた筋）
- 半開の筋（`fully_open` が false） — セミオープンファイル
- `mobility` — 駒の可動性（合法手の数）
- `see` — SEE（駒の取り合いの損得計算）

## 評価（`Classification`）

- `book` — 定跡
- `great` — 好手（!）
- `best` — 最善手
- `excellent` — 優良手
- `good` — 妥当な手
- `inaccuracy` — 不正確（?!）
- `mistake` — 悪手（?）
- `blunder` — 大悪手（??）
- `miss` — 詰み逃し

## その他

- `pv` / `long_pv` — 読み筋
- `counterfactual` — もし別の手を指していたらどうなっていたか
- `refutation` — 咎め方
- `alternative_collapse` — 次善手を選んでいた場合の崩壊
- `win_prob` / `win_prob_before` / `win_prob_after` — 勝率
- `delta` — 勝率の増減
- `accuracy` — 正確度
- `eco` / `opening` — ECO コード／オープニング名
- `side_to_move` — 手番
- `fen` — FEN（局面の表記）"#;

/// The extra rules for follow-up questions, in Japanese.
pub const JA_QA: &'static str = r#"# 追加の質問について

以上のルールはそのまま適用されます。使ってよいのは、上の JSON とこの会話に現れた事実だけ
です。相手の意図を断定してはいけません。与えられた情報だけでは答えられない質問には、その旨を
はっきり述べ、答えるには何を解析する必要があるかを書いてください。手順・評価値・マスを推測で
埋めてはいけません。"#;

/// Strings joined by a blank line.
pub open spec fn join_blocks(xs: Seq<Seq<char>>) -> Seq<char>
    decreases xs.len(),
{
    if xs.len() == 0 {
        seq![]
    } else if xs.len() == 1 {
        xs[0]
    } else {
        join_blocks(xs.drop_last()) + "\n\n"@ + xs.last()
    }
}

/// The sections of the fixed part.
pub open spec fn spec_system_blocks(lang: Language) -> Seq<Seq<char>> {
    match lang {
        Language::En => seq![EN_ROLE@],
        Language::Ja => seq![JA_ROLE@, JA_GLOSSARY@],
    }
}

/// The fixed part: its sections joined by blank lines.
pub open spec fn spec_system_prompt(lang: Language) -> Seq<char> {
    match lang {
        Language::En => EN_ROLE@,
        Language::Ja => JA_ROLE@ + "\n\n"@ + JA_GLOSSARY@,
    }
}

pub open spec fn qa_rules(lang: Language) -> Seq<char> {
    match lang {
        Language::En => EN_QA@,
        Language::Ja => JA_QA@,
    }
}

/// The fixed part for follow-up mode: the explanation prompt, a blank line,
/// and the follow-up rules.
pub open spec fn spec_qa_system_prompt(lang: Language) -> Seq<char> {
    spec_system_prompt(lang) + "\n\n"@ + qa_rules(lang)
}

fn concat3(a: &str, b: &str, c: &str) -> (r: String)
    ensures
        r@ == a@ + b@ + c@,
{
    let mut out: Vec<char> = Vec::new();
    push_str(&mut out, a);
    push_str(&mut out, b);
    push_str(&mut out, c);
    string_from_chars(&out)
}

/// The fixed part of the prompt.
pub fn system_prompt(lang: Language) -> (r: String)
    ensures
        r@ == spec_system_prompt(lang),
{
    match lang {
        Language::En => EN_ROLE.to_owned(),
        Language::Ja => concat3(JA_ROLE, "\n\n", JA_GLOSSARY),
    }
}

/// The fixed part as its sections, so that a provider can mark the last one
/// for caching.
pub fn system_blocks(lang: Language) -> (r: Vec<&'static str>)
    ensures
        r@.map_values(|s: &str| s@) == spec_system_blocks(lang),
{
    let mut out: Vec<&'static str> = Vec::new();
    match lang {
        Language::En => {
            out.push(EN_ROLE);
        },
        Language::Ja => {
            out.push(JA_ROLE);
            out.push(JA_GLOSSARY);
        },
    }
    assert(out@.map_values(|s: &str| s@) =~= spec_system_blocks(lang));
    out
}

/// The fixed part for follow-up questions.
pub fn qa_system_prompt(lang: Language) -> (r: String)
    ensures
        r@ == spec_qa_system_prompt(lang),
{
    let base = system_prompt(lang);
    let rules = match lang {
        Language::En => EN_QA,
        Language::Ja => JA_QA,
    };
    concat3(base.as_str(), "\n\n", rules)
}

/// Joining the sections by blank lines gives the fixed part back.
pub proof fn lemma_blocks_join_back(lang: Language)
    ensures
        join_blocks(spec_system_blocks(lang)) == spec_system_prompt(lang),
{
    let xs = spec_system_blocks(lang);
    if lang == Language::Ja {
        assert(xs.drop_last() =~= seq![JA_ROLE@]);
        assert(join_blocks(seq![JA_ROLE@]) == JA_ROLE@);
        assert(join_blocks(xs) == join_blocks(xs.drop_last()) + "\n\n"@ + xs.last());
    } else {
        assert(join_blocks(xs) == xs[0]);
    }
}

/// The follow-up prompt extends the explanation prompt: it starts with it
/// and is longer.
pub proof fn lemma_qa_extends(lang: Language)
    ensures
        spec_qa_system_prompt(lang).subrange(0, spec_system_prompt(lang).len() as int) == spec_system_prompt(lang),
        spec_qa_system_prompt(lang).len() > spec_system_prompt(lang).len(),
{
    reveal_strlit("\n\n");
    let base = spec_system_prompt(lang);
    assert(spec_qa_system_prompt(lang).subrange(0, base.len() as int) =~= base);
}

/// The framing of the analysis JSON for an explanation.
pub open spec fn user_frame(lang: Language) -> Seq<char> {
    match lang {
        Language::En => "Here is the analysis of a single move, as JSON. Explain it, following the rules above.\n\n```json\n"@,
        Language::Ja => "次の JSON は 1 手ぶんの解析結果です。上のルールに従って解説してください。\n\n```json\n"@,
    }
}

/// The variable part: the analysis, given as JSON text, and its framing.
pub fn user_prompt(context_json: &str, lang: Language) -> (r: String)
    ensures
        r@ == user_frame(lang) + context_json@ + "\n```"@,
{
    let frame = match lang {
        Language::En => "Here is the analysis of a single move, as JSON. Explain it, following the rules above.\n\n```json\n",
        Language::Ja => "次の JSON は 1 手ぶんの解析結果です。上のルールに従って解説してください。\n\n```json\n",
    };
    concat3(frame, context_json, "\n```")
}

/// The opening user turn of a follow-up conversation.
pub open spec fn spec_qa_context(context_json: Option<Seq<char>>, lang: Language) -> Seq<char> {
    match (context_json, lang) {
        (Some(j), Language::En) => "This is the position under discussion, as JSON. Every answer you give must rest on it.\n\n```json\n"@ + j + "\n```"@,
        (Some(j), Language::Ja) => "以下が話題になっている局面の JSON です。あなたの回答はすべてこの内容に基づいていなければなりません。\n\n```json\n"@ + j + "\n```"@,
        (None, Language::En) => "No position analysis is attached to this conversation."@,
        (None, Language::Ja) => "この会話には局面の解析結果が添付されていません。"@,
    }
}

/// The opening user turn of a follow-up conversation: the analysis as the
/// shared reference for the questions that follow.
pub fn qa_context_prompt(context_json: Option<&str>, lang: Language) -> (r: String)
    ensures
        r@ == spec_qa_context(
            match context_json {
                Some(j) => Some(j@),
                None => None::<Seq<char>>,
            },
            lang,
        ),
{
    match (context_json, lang) {
        (Some(j), Language::En) => concat3(
            "This is the position under discussion, as JSON. Every answer you give must rest on it.\n\n```json\n",
            j,
            "\n```",
        ),
        (Some(j), Language::Ja) => concat3(
            "以下が話題になっている局面の JSON です。あなたの回答はすべてこの内容に基づいていなければなりません。\n\n```json\n",
            j,
            "\n```",
        ),
        (None, Language::En) => "No position analysis is attached to this conversation.".to_owned(),
        (None, Language::Ja) => "この会話には局面の解析結果が添付されていません。".to_owned(),
    }
}

/// The labels of a transcript: user, assistant, new question.
pub open spec fn labels(lang: Language) -> (Seq<char>, Seq<char>, Seq<char>) {
    match lang {
        Language::En => ("User"@, "You"@, "New question from the user"@),
        Language::Ja => ("ユーザー"@, "あなた"@, "ユーザーからの新しい質問"@),
    }
}

/// The first `n` turns, one paragraph each, labelled by speaker.
pub open spec fn turns_text(history: Seq<Turn>, lang: Language, n: int) -> Seq<char>
    decreases n,
{
    if n <= 0 {
        seq![]
    } else {
        let t = history[n - 1];
        let label = if t.role@ == "assistant"@ { labels(lang).1 } else { labels(lang).0 };
        turns_text(history, lang, n - 1) + "\n"@ + label + ": "@ + t.content@ + "\n"@
    }
}

/// A whole follow-up conversation flattened into one prompt.
pub open spec fn spec_transcript(context_json: Option<Seq<char>>, history: Seq<Turn>, question: Seq<char>, lang: Language) -> Seq<char> {
    let head = spec_qa_context(context_json, lang);
    let body = if history.len() == 0 {
        seq![]
    } else {
        "\n\n---\n"@ + turns_text(history, lang, history.len() as int)
    };
    head + body + "\n\n---\n\n"@ + labels(lang).2 + ": "@ + question + "\n"@
}

/// The whole follow-up conversation flattened into one prompt, for a
/// provider that takes a single prompt rather than a message list.
pub fn qa_transcript_prompt(context_json: Option<&str>, history: &Vec<Turn>, question: &str, lang: Language) -> (r: String)
    ensures
        r@ == spec_transcript(
            match context_json {
                Some(j) => Some(j@),
                None => None::<Seq<char>>,
            },
            history@,
            question@,
            lang,
        ),
{
    let head = qa_context_prompt(context_json, lang);
    let (user_label, assistant_label, question_label) = match lang {
        Language::En => ("User", "You", "New question from the user"),
        Language::Ja => ("ユーザー", "あなた", "ユーザーからの新しい質問"),
    };
    let mut out: Vec<char> = Vec::new();
    push_str(&mut out, head.as_str());
    if history.len() > 0 {
        push_str(&mut out, "\n\n---\n");
        let ghost start = out@;
        let mut i: usize = 0;
        while i < history.len()
            invariant
                i <= history@.len(),
                user_label@ == labels(lang).0,
                assistant_label@ == labels(lang).1,
                out@ == start + turns_text(history@, lang, i as int),
            decreases history.len() - i,
        {
            let t = &history[i];
            let label = if crate::text::str_eq(t.role.as_str(), "assistant") { assistant_label } else { user_label };
            push_str(&mut out, "\n");
            push_str(&mut out, label);
            push_str(&mut out, ": ");
            push_str(&mut out, t.content.as_str());
            push_str(&mut out, "\n");
            i += 1;
        }
    }
    push_str(&mut out, "\n\n---\n\n");
    push_str(&mut out, question_label);
    push_str(&mut out, ": ");
    push_str(&mut out, question);
    push_str(&mut out, "\n");
    string_from_chars(&out)
}

} // verus!
