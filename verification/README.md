# icon_paint

Recolours the icons of a panel so that they suit its theme.

`paint::recolour` takes an image, a theme and whether the image was handed in as a symbolic
icon. It decides what the icon is, paints it where it can be painted, and returns the decision.
A grey icon of one tone takes the ink of the theme, one of two tones takes the ink and a weaker
colour, and anything else stays as it is, with a reason. A coloured badge at the edge of an icon
keeps its colours, and alpha never changes.

| Module     | Holds                                                                 |
|------------|-----------------------------------------------------------------------|
| `raster`   | images, and the grid of pixels behind their bytes                     |
| `theme`    | what painting has to know of a panel                                  |
| `tone`     | brightness, and how much of each brightness a set of samples holds    |
| `share`    | shares in percent                                                     |
| `badge`    | coloured badges and what they cover                                   |
| `contour`  | alternation of two inks along rows and columns                        |
| `palette`  | the tones of solid areas, and the edges that blend them               |
| `decision` | the outcome, as a value and as a mathematical one                     |
| `paint`    | the decision on an icon, and its painting                             |
| `sums`     | masses and counts as sums of numbers                                  |
| `laws`     | proofs of what holds of every icon                                    |
| `padding`  | proofs of what transparent padding leaves unchanged                   |
| `turning`  | proofs that rows and columns count alike                              |

Everything is verified with Verus; nothing is trusted beyond the specifications in `vstd`.
