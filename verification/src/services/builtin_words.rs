//! The word list that the spell checker starts from: common English words,
//! one per line.
use vstd::prelude::*;

verus! {

/// The built-in dictionary text.
pub const BUILTIN_WORDS: &'static str = "a
about
above
across
act
action
actually
add
after
again
against
age
ago
agree
air
all
allow
almost
alone
along
already
also
although
always
am
among
an
and
animal
another
answer
any
anyone
anything
appear
apple
are
area
arm
around
arrive
art
as
ask
at
away
baby
back
bad
bag
ball
bank
bar
base
be
bear
beat
beautiful
because
become
bed
been
before
began
begin
behind
being
believe
below
best
better
between
big
bird
bit
black
blood
blue
board
boat
body
book
born
both
bottom
box
boy
bread
break
bring
brother
brought
brown
build
building
burn
business
busy
but
buy
by
call
came
can
car
card
care
carry
case
cat
catch
cause
center
certain
chair
chance
change
chapter
character
check
child
children
choose
church
city
class
clean
clear
close
cloud
cold
color
come
common
company
complete
consider
contain
continue
control
cook
cool
corner
cost
could
count
country
course
cover
cross
cry
cup
current
cut
dark
daughter
day
dead
deal
dear
death
decide
deep
develop
did
die
difference
different
difficult
dinner
direction
do
doctor
does
dog
done
door
double
down
draft
draw
dream
dress
drink
drive
drop
dry
during
each
ear
early
earth
east
easy
eat
edge
edit
editor
effect
egg
eight
either
else
end
enough
enter
even
evening
event
ever
every
everyone
everything
example
except
eye
face
fact
fair
fall
family
far
farm
fast
father
fear
feel
feet
few
field
fight
figure
file
fill
final
find
fine
finger
finish
fire
first
fish
five
floor
fly
follow
food
foot
for
force
forest
form
forward
found
four
free
friend
from
front
full
game
garden
gave
general
get
girl
give
glass
go
god
gold
gone
good
got
government
great
green
ground
group
grow
guess
had
hair
half
hand
happen
happy
hard
has
hat
have
he
head
hear
heard
heart
heat
heavy
held
hello
help
her
here
high
hill
him
his
history
hit
hold
hole
home
hope
horse
hot
hour
house
how
however
human
hundred
idea
if
important
in
inside
instead
interest
into
is
island
it
its
job
join
just
keep
kept
key
kill
kind
king
knew
know
land
language
large
last
late
laugh
law
lay
lead
learn
least
leave
led
left
leg
less
let
letter
level
lie
life
light
like
line
list
listen
little
live
long
look
lost
lot
love
low
machine
made
main
make
man
many
map
mark
market
matter
may
me
mean
measure
meet
member
men
middle
might
mile
mind
minute
miss
moment
money
month
moon
more
morning
most
mother
mountain
mouth
move
much
music
must
my
name
nation
near
need
never
new
news
next
night
nine
no
north
nose
not
note
nothing
notice
now
number
object
of
off
offer
office
often
oh
old
on
once
one
only
open
or
order
other
our
out
outside
over
own
page
paper
part
party
pass
past
pay
people
perhaps
person
picture
piece
place
plan
plant
play
please
point
poor
position
possible
power
present
president
press
pretty
problem
produce
program
pull
put
question
quick
quiet
quite
rain
ran
reach
read
ready
real
reason
receive
red
remember
rest
return
rich
ride
right
river
road
rock
room
round
rule
run
said
same
sat
save
saw
say
school
sea
second
see
seem
seen
sell
send
sense
sentence
serve
set
seven
several
shall
shape
she
ship
short
should
show
side
sign
simple
since
sing
sister
sit
six
size
sky
sleep
slow
small
smile
snow
so
some
someone
something
sometimes
son
song
soon
sound
south
space
speak
special
spell
spring
stand
star
start
state
stay
step
still
stood
stop
story
street
strong
student
study
such
sudden
summer
sun
sure
surface
system
table
take
talk
tall
teacher
team
tell
ten
test
text
than
thank
that
the
their
them
then
there
these
they
thing
think
third
this
those
though
thought
thousand
three
through
time
to
today
together
told
tomorrow
too
took
top
toward
town
tree
true
try
turn
two
under
understand
until
up
upon
us
use
usual
very
voice
wait
walk
wall
want
war
warm
was
watch
water
way
we
wear
weather
week
well
went
were
west
what
wheel
when
where
whether
which
while
white
who
whole
why
wide
wife
will
wind
window
winter
wish
with
within
without
woman
women
wonder
word
work
world
would
write
written
wrong
year
yes
yet
you
young
your
";

} // verus!
