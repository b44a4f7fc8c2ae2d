# studyflash_review

The verified core of the StudyFlash review system: a spaced-repetition
scheduler for flashcards, its experience and level rules, the checks applied to
cards, taxonomy nodes and imports, tag normalisation, and the editor documents
built for imported lessons.

- `src/` is the library, written in Verus and verified:
  - `schedule` — the next interval and state of a card after a review, with the
    laws of the schedule (right answers never shorten a wait; a wrong answer on a
    wait of at least a day never lengthens it, and below a rating's floor raises
    it to that floor; easier ratings wait longer, …);
  - `progress` — experience per review, daily completion, dashboard level;
  - `review` — judging an answer, and the local day a review counts for;
  - `validation` — what cards, taxonomy nodes, lesson packages and imports must satisfy;
  - `taxonomy` — subject/topic/content placement of pages and imported lessons,
    and the plan that keeps the taxonomy in sync with the page tree;
  - `tags`, `text` — tag normalisation, Unicode trimming, list-item recognition;
  - `document`, `lesson` — the editor blocks of imported text and lesson pages;
  - `cards` — the stored form of a new card; `model` — requests and errors.
- `app/` holds the HTTP endpoints (actix-web) and the database access (sqlx):
  it reads requests, asks the library what to do, and writes the answers.
- `tests/` exercises the library on concrete values.
