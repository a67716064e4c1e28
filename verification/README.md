# nginx_logs

A service that follows the access log and the error log of an Nginx server. It
shows their latest lines on a page, reports when each was last written to, and
exposes counters and durations to Prometheus.

- `src/` is the library, verified with Verus: following a growing file, reading
  access log lines, keeping the latest lines, counting, and writing the page,
  the health report and the metrics.
- `app/` is the program around it: settings, files, the clock, the web server,
  and the histogram of durations, which are floating-point numbers.
- `tests/` runs the library on concrete values.

## Settings

| Variable                 | Default                | Meaning                      |
|--------------------------|------------------------|------------------------------|
| `LISTEN_ADDR`            | `0.0.0.0:9100`         | where the service listens    |
| `ACCESS_LOG_PATH`        | `/app/logs/access.log` | the access log               |
| `ERROR_LOG_PATH`         | `/app/logs/error.log`  | the error log                |
| `NGINX_UI_PUBLIC_PREFIX` |                        | a path prefix for the page   |

## Paths

`/` and `/ui` show the page, also below the prefix; `/healthz` is the health
report, and `/metrics` the metrics.
