# gh-review-insight

GitHub のレビュー依頼状況とレビュー実績を確認するための小さな GUI / CLI です。
認証と API アクセスは `gh` に委譲します。

- `src/` — 検証済みライブラリ。`gh`・herdr・ターミナルに何を頼み、その応答から何を導くかを
  決めます。プログラムの実行やファイルの読み書きは行わず、これまでの応答の一覧を受け取って
  「次にすること」か「結果」を返します。各関数の契約と法則（`law_…`）は Verus が証明します。
- `app/` — ライブラリを囲む通常の Rust。`main`、egui の画面、プロセスの起動、ファイル、環境変数。
- `tests/` — 具体的な値でのテスト。

## 使い方

```
gh-review-insight                  # 画面を開く
gh-review-insight status [--json]  # PR の一覧
gh-review-insight stats [--json]   # レビュー実績（集計元がないため、今はその旨のエラーになります）
```

各 PR は次のように分類されます。

- 要レビュー（`waiting`）: リクエストがあり、誰も未レビューか、一度レビューした後に再リクエストされた
- 要レビュー・他者済（`should`）: リクエストがあり自分は未レビュー、誰かがレビュー済み
- レビュー済（`reviewed`）: 自分がレビュー済みで、再リクエストはされていない

AI レビューに使うコマンドの名前は環境変数 `GH_REVIEW_AI_COMMAND` で、メッセージに出す呼び名は
`GH_REVIEW_AI_TITLE` で指定します（既定値はなく、未設定なら AI レビューは起動せず、レポートも表示されません）。
再レビューは前回の会話の続きではなく、前回と同じ名前のタブで新しく始まります。設定は `$HOME/.config/gh-review-insight/` に保存されます。
