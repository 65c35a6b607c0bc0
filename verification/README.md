# HITSZ Info Fetcher

Fetches notices from the internal information portal of HITSZ. It logs in at the
unified identity service, in a Chrome browser or over plain HTTP, reads the
portal's list pages, and hands out the notices of a date range as JSON.

## Layout

- `src/` is the library. It is written in Verus: every function states what it
  returns, and Verus proves it.
- `tests/` runs the library, with the outside crates that it calls.
- `app/` is the program around it: the command line, the browser, the requests,
  files, and the JSON forms of the library's types.

## The library

| Module | What it is about |
|---|---|
| `text` | searching, trimming, squeezing, escaping and ordering text |
| `page_url`, `dom`, `json` | URLs, HTML elements and JSON members, read by `url`, `scraper` and `serde_json` |
| `extract` | title and links of a page, notices of a list page, the link to the next page |
| `pager` | which pages to read for a date range, and the notices that it keeps |
| `calendar` | days, going back from one, and dates whose order as text is that of the days |
| `cron` | the days and the session of an unattended run, and how its notices join those kept |
| `cli` | credentials and date ranges from flags, variables and prompts |
| `auth`, `cipher` | the login form, the sealed password, and how a login over HTTP ended |
| `cookies`, `cookie_store` | cookies by name, and the cookie store of an HTTP client |
| `profile`, `models` | tokens from the student portal's profile, and what the fetcher hands out |
| `browser_plan`, `browser_auth`, `login_watch`, `scripts` | coming by a browser, what its pages show, the wait for a login to complete, and the scripts run in it |
| `ldap`, `hit_auth`, `hita_auth` | the login at the mobile service |
| `health` | the reply of the notice service to a health check |

Promises that span functions stand as proof functions whose names begin with
`law_`, beside the functions that they speak of. What outside crates return is
stated at the functions marked `external_body`, or has a name there.

## Use

```
hitsz-info-fetcher [--username U] [--password P] [--info-url URL]
                   [--from DATE] [--to DATE] [--today] [--all]
hitsz-info-fetcher cron [--output notices.json] [--days N]
hitsz-info-fetcher healthcheck
```

Credentials come from the flags, else from `HITSZ_USERNAME` and
`HITSZ_PASSWORD`, else from a prompt. Without a date only the notices of today
are fetched; `--all` fetches the page alone.

Chrome is found by `HITSZ_CHROME_DEBUG_URL`, `HITSZ_CHROME_USER_DATA_DIR`,
`HITSZ_CHROME_PROFILE_DIRECTORY` and `HITSZ_CHROME_EXECUTABLE`, where they are
set.
